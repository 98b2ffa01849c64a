use lcsf::lcsf_core::{LcsfCore, LcsfSendErrorEnum};
use lcsf::lcsf_error::{
    is_error_cmd, lcsf_ep_prot_desc, process_error, LCSF_EP_PROT_ID_NORMAL, LCSF_EP_PROT_ID_SMALL,
};
use lcsf::lcsf_transcoder::{LcsfModeEnum, LcsfRawAtt, LcsfRawAttPayload, LcsfRawMsg};
use lcsf::lcsf_validator::{
    LcsfAttDesc, LcsfCmdDesc, LcsfDataType, LcsfProtDesc, LcsfValidAtt, LcsfValidAttPayload,
    LcsfValidCmd,
};
use std::sync::atomic::{AtomicBool, Ordering};

type SendCallback = fn(&[u8]);

struct ProtCallback(fn(&TestCore, &LcsfValidCmd));

type TestCore = LcsfCore<SendCallback, ProtCallback>;

fn same_cb(left: &ProtCallback, right: fn(&TestCore, &LcsfValidCmd)) -> bool {
    left.0 as usize == right as usize
}

// Mock for SendCallback
fn dummy_send_callback(_: &[u8]) {
    // Mock implementation
}

// Mock for ProtCallback
fn dummy_prot_callback(_: &TestCore, _: &LcsfValidCmd) {}

// Stands for the default error callback
fn def_process_error(_: &TestCore, valid_cmd: &LcsfValidCmd) {
    assert!(is_error_cmd(valid_cmd));
    let (loc_str, type_str) = process_error(valid_cmd);
    println!("Received error, location: {loc_str}, type: {type_str}");
}

fn new_core(mode: LcsfModeEnum, send_cb: SendCallback, do_gen_err: bool) -> TestCore {
    LcsfCore::new(mode, send_cb, ProtCallback(def_process_error), do_gen_err)
}

// What the application does with the outcome of receive_buff
fn run_receive_buff(core: &TestCore, buff: &[u8]) -> bool {
    match core.receive_buff(buff) {
        Ok((prot_cb, valid_cmd)) => {
            (prot_cb.0)(core, &valid_cmd);
            true
        }
        Err(reply) => {
            if let Some(bytes) = reply {
                (core.fn_send())(&bytes);
            }
            false
        }
    }
}

// What the application does with the outcome of receive_raw
fn run_receive_raw(core: &TestCore, buff: &[u8]) -> Option<LcsfRawMsg> {
    match core.receive_raw(buff) {
        Ok(raw_msg) => Some(raw_msg),
        Err(reply) => {
            if let Some(bytes) = reply {
                (core.fn_send())(&bytes);
            }
            None
        }
    }
}

// What the application does with the outcome of send_cmd
fn run_send_cmd(core: &TestCore, prot_id: u16, valid_cmd: &LcsfValidCmd) {
    let buff = core.send_cmd(prot_id, valid_cmd).unwrap();
    (core.fn_send())(&buff);
}

fn test_prot_desc() -> LcsfProtDesc {
    LcsfProtDesc {
        cmd_desc_arr: vec![(
            0x12,
            LcsfCmdDesc {
                att_desc_arr: Vec::new(),
            },
        )],
    }
}

fn test_valid_cmd() -> LcsfValidCmd {
    LcsfValidCmd {
        cmd_id: 0x12,
        att_arr: Vec::new(),
    }
}

fn test_raw_cmd() -> LcsfRawMsg {
    LcsfRawMsg {
        prot_id: 0xab,
        cmd_id: 0x12,
        att_nb: 0,
        att_arr: Vec::new(),
    }
}

fn test_buff() -> Vec<u8> {
    vec![0xab, 0x12, 0x00]
}

#[test]
fn test_new_lcsf_core() {
    let lcsf_core = new_core(LcsfModeEnum::Normal, dummy_send_callback, false);
    // Assert that the instance is created correctly
    assert_eq!(lcsf_core.lcsf_mode(), LcsfModeEnum::Normal);
    if *lcsf_core.fn_send() as usize != dummy_send_callback as usize {
        panic!("Invalid callback pointer");
    }
}

#[test]
fn lcsf_core_test_new_lcsf_core() {
    let lcsf_core = new_core(LcsfModeEnum::Normal, dummy_send_callback, false);
    // Assert that the instance is created correctly
    assert_eq!(lcsf_core.lcsf_mode(), LcsfModeEnum::Normal);
    assert!(!lcsf_core.do_gen_err());
    if *lcsf_core.fn_send() as usize != dummy_send_callback as usize {
        panic!("Invalid callback pointer");
    }
    assert_eq!(lcsf_core.prot_desc(LCSF_EP_PROT_ID_NORMAL), Some(&lcsf_ep_prot_desc()));
    assert_eq!(lcsf_core.prot_desc(LCSF_EP_PROT_ID_SMALL), None);
    assert!(lcsf_core.prot_cb(LCSF_EP_PROT_ID_SMALL).is_none());
}

#[test]
fn test_update_err_cb() {
    let mut lcsf_core = new_core(LcsfModeEnum::Normal, dummy_send_callback, false);
    // Look at the current callback
    let err_prot_id = LCSF_EP_PROT_ID_NORMAL;
    let mut error_callback = lcsf_core.prot_cb(err_prot_id).unwrap();
    if !same_cb(error_callback, def_process_error) {
        panic!("Invalid callback pointer");
    }
    // Update the error callback
    lcsf_core.update_err_cb(ProtCallback(dummy_prot_callback));
    // Assert that the error callback is updated correctly
    error_callback = lcsf_core.prot_cb(err_prot_id).unwrap();
    if !same_cb(error_callback, dummy_prot_callback) {
        panic!("Invalid callback pointer");
    }
}

#[test]
fn lcsf_core_test_update_err_cb() {
    let mut lcsf_core = new_core(LcsfModeEnum::Small, dummy_send_callback, false);
    let err_prot_id = LCSF_EP_PROT_ID_SMALL;
    if !same_cb(lcsf_core.prot_cb(err_prot_id).unwrap(), def_process_error) {
        panic!("Invalid callback pointer");
    }
    lcsf_core.update_err_cb(ProtCallback(dummy_prot_callback));
    if !same_cb(lcsf_core.prot_cb(err_prot_id).unwrap(), dummy_prot_callback) {
        panic!("Invalid callback pointer");
    }
    assert_eq!(lcsf_core.prot_desc(err_prot_id), Some(&lcsf_ep_prot_desc()));
}

#[test]
fn test_add_protocol() {
    let mut lcsf_core = new_core(LcsfModeEnum::Normal, dummy_send_callback, false);
    // Add protocol
    lcsf_core.add_protocol(0xab, test_prot_desc(), ProtCallback(dummy_prot_callback));
    // Look at the values
    let prot_desc = lcsf_core.prot_desc(0xab).unwrap();
    let callback = lcsf_core.prot_cb(0xab).unwrap();
    assert_eq!(*prot_desc, test_prot_desc());
    if !same_cb(callback, dummy_prot_callback) {
        panic!("Invalid callback pointer");
    }
}

#[test]
fn lcsf_core_test_add_protocol() {
    let mut lcsf_core = new_core(LcsfModeEnum::Normal, dummy_send_callback, false);
    // Add protocol
    lcsf_core.add_protocol(0xab, test_prot_desc(), ProtCallback(dummy_prot_callback));
    // Look at the values
    assert_eq!(lcsf_core.prot_desc(0xab), Some(&test_prot_desc()));
    if !same_cb(lcsf_core.prot_cb(0xab).unwrap(), dummy_prot_callback) {
        panic!("Invalid callback pointer");
    }
    // The error protocol stays registered, and can be replaced
    assert_eq!(lcsf_core.prot_desc(LCSF_EP_PROT_ID_NORMAL), Some(&lcsf_ep_prot_desc()));
    lcsf_core.add_protocol(
        LCSF_EP_PROT_ID_NORMAL,
        test_prot_desc(),
        ProtCallback(dummy_prot_callback),
    );
    assert_eq!(lcsf_core.prot_desc(LCSF_EP_PROT_ID_NORMAL), Some(&test_prot_desc()));
    if !same_cb(lcsf_core.prot_cb(LCSF_EP_PROT_ID_NORMAL).unwrap(), dummy_prot_callback) {
        panic!("Invalid callback pointer");
    }
}

static CMD_IS_VALID: AtomicBool = AtomicBool::new(false);

fn test_prot_callback(_: &TestCore, valid_cmd: &LcsfValidCmd) {
    if *valid_cmd == test_valid_cmd() {
        CMD_IS_VALID.store(true, Ordering::SeqCst);
    }
}

#[test]
fn test_receive_buff() {
    let mut lcsf_core = new_core(LcsfModeEnum::Small, dummy_send_callback, false);
    // Add protocol
    lcsf_core.add_protocol(0xab, test_prot_desc(), ProtCallback(test_prot_callback));
    // Test function
    assert!(run_receive_buff(&lcsf_core, &test_buff()));
    // Look at the value
    let is_valid: bool = CMD_IS_VALID.load(Ordering::SeqCst);
    assert!(is_valid);
}

#[test]
fn lcsf_core_test_receive_buff() {
    let mut lcsf_core = new_core(LcsfModeEnum::Small, dummy_send_callback, false);
    // Add protocol
    lcsf_core.add_protocol(0xab, test_prot_desc(), ProtCallback(test_prot_callback));
    // Test function
    match lcsf_core.receive_buff(&test_buff()) {
        Ok((prot_cb, valid_cmd)) => {
            assert!(same_cb(prot_cb, test_prot_callback));
            assert_eq!(valid_cmd, test_valid_cmd());
        }
        Err(_) => panic!("receive_buff should not fail"),
    }
    // Without error generation a refused buffer gets no answer
    assert_eq!(lcsf_core.receive_buff(&[0xab, 0x12]).err(), Some(None));
    assert_eq!(lcsf_core.receive_buff(&[0xab, 0x13, 0x00]).err(), Some(None));
}

static BUFF_IS_VALID: AtomicBool = AtomicBool::new(false);

fn test_send_callback(buff: &[u8]) {
    if buff == test_buff() {
        BUFF_IS_VALID.store(true, Ordering::SeqCst);
    }
}

#[test]
fn test_send_cmd() {
    let mut lcsf_core = new_core(LcsfModeEnum::Small, test_send_callback, false);
    // Add protocol
    lcsf_core.add_protocol(0xab, test_prot_desc(), ProtCallback(dummy_prot_callback));
    // Test function
    BUFF_IS_VALID.store(false, Ordering::SeqCst);
    run_send_cmd(&lcsf_core, 0xab, &test_valid_cmd());
    let is_valid: bool = BUFF_IS_VALID.load(Ordering::SeqCst);
    assert!(is_valid);
}

#[test]
fn lcsf_core_test_send_cmd() {
    let mut lcsf_core = new_core(LcsfModeEnum::Small, test_send_callback, false);
    // Add protocol
    lcsf_core.add_protocol(0xab, test_prot_desc(), ProtCallback(dummy_prot_callback));
    // Test function
    assert_eq!(lcsf_core.send_cmd(0xab, &test_valid_cmd()), Ok(test_buff()));
}

static ERR_IS_VALID: AtomicBool = AtomicBool::new(false);

fn test_err_callback(_: &TestCore, valid_cmd: &LcsfValidCmd) {
    let (loc_str, type_str) = process_error(&valid_cmd);
    if loc_str == "Validator" && type_str == "Unknown attribute id" {
        ERR_IS_VALID.store(true, Ordering::SeqCst);
    }
}

#[test]
fn test_error_processing() {
    // Test data
    let err_buff: Vec<u8> = vec![0xff, 0x00, 0x02, 0x00, 0x01, 0x01, 0x01, 0x01, 0x02];

    let mut lcsf_core = new_core(LcsfModeEnum::Small, dummy_send_callback, false);
    // Use default error callback
    assert!(run_receive_buff(&lcsf_core, &err_buff));
    // Update the error callback
    lcsf_core.update_err_cb(ProtCallback(test_err_callback));
    // Send buffer
    assert!(run_receive_buff(&lcsf_core, &err_buff));
    // Look at the value
    let is_valid: bool = ERR_IS_VALID.load(Ordering::SeqCst);
    assert!(is_valid);
}

#[test]
fn lcsf_core_test_error_processing() {
    // Test data
    let err_buff: Vec<u8> = vec![0xff, 0x00, 0x02, 0x00, 0x01, 0x01, 0x01, 0x01, 0x02];

    let mut lcsf_core = new_core(LcsfModeEnum::Small, dummy_send_callback, false);
    lcsf_core.update_err_cb(ProtCallback(test_err_callback));
    match lcsf_core.receive_buff(&err_buff) {
        Ok((prot_cb, valid_cmd)) => {
            assert!(same_cb(prot_cb, test_err_callback));
            assert_eq!(process_error(&valid_cmd), ("Validator", "Unknown attribute id"));
        }
        Err(_) => panic!("receive_buff should not fail"),
    }
}

static BAD_DATA_IS_VALID: AtomicBool = AtomicBool::new(false);

fn test_bad_data_callback(buff: &[u8]) {
    let bad_data: Vec<u8> = vec![0xff, 0x00, 0x02, 0x00, 0x01, 0x00, 0x01, 0x01, 0x00];
    let unknwn_prot_id: Vec<u8> = vec![0xff, 0x00, 0x02, 0x00, 0x01, 0x01, 0x01, 0x01, 0x00];

    if buff == bad_data || buff == unknwn_prot_id {
        BAD_DATA_IS_VALID.store(true, Ordering::SeqCst);
    }
}

#[test]
fn test_error_encoding() {
    // Test data
    let bad_format_buff: Vec<u8> = vec![0xab, 0x12, 0x05];
    let bad_prot_id_buff: Vec<u8> = vec![0x55, 0x01, 0x00];

    let lcsf_core = new_core(LcsfModeEnum::Small, test_bad_data_callback, true);
    // Send buffer
    assert!(!run_receive_buff(&lcsf_core, &bad_format_buff));
    // Look at the value
    let is_valid: bool = BAD_DATA_IS_VALID.load(Ordering::SeqCst);
    assert!(is_valid);
    BAD_DATA_IS_VALID.store(false, Ordering::SeqCst);
    // Send second buffer
    assert!(!run_receive_buff(&lcsf_core, &bad_prot_id_buff));
    let is_valid: bool = BAD_DATA_IS_VALID.load(Ordering::SeqCst);
    assert!(is_valid);
}

#[test]
fn lcsf_core_test_error_encoding() {
    // Test data
    let bad_format_buff: Vec<u8> = vec![0xab, 0x12, 0x05];
    let bad_prot_id_buff: Vec<u8> = vec![0x55, 0x01, 0x00];

    let lcsf_core = new_core(LcsfModeEnum::Small, dummy_send_callback, true);
    assert_eq!(
        lcsf_core.receive_buff(&bad_format_buff).err(),
        Some(Some(vec![0xff, 0x00, 0x02, 0x00, 0x01, 0x00, 0x01, 0x01, 0x00]))
    );
    assert_eq!(
        lcsf_core.receive_buff(&bad_prot_id_buff).err(),
        Some(Some(vec![0xff, 0x00, 0x02, 0x00, 0x01, 0x01, 0x01, 0x01, 0x00]))
    );
}

#[test]
fn test_send_raw() {
    let lcsf_core = new_core(LcsfModeEnum::Small, test_send_callback, false);
    // Test function
    BUFF_IS_VALID.store(false, Ordering::SeqCst);
    let buff = lcsf_core.send_raw(&test_raw_cmd());
    (lcsf_core.fn_send())(&buff);
    let is_valid: bool = BUFF_IS_VALID.load(Ordering::SeqCst);
    assert!(is_valid);
    assert_eq!(buff, test_buff());
}

#[test]
fn test_receive_raw() {
    let lcsf_core = new_core(LcsfModeEnum::Small, dummy_send_callback, false);
    // Test function
    let raw_msg = run_receive_raw(&lcsf_core, &test_buff()).unwrap();
    assert_eq!(raw_msg, test_raw_cmd());
}

#[test]
fn receive_raw_answers_a_refused_buffer() {
    let quiet = new_core(LcsfModeEnum::Normal, dummy_send_callback, false);
    assert_eq!(quiet.receive_raw(&[0xab, 0x12, 0x00]), Err(None));
    let loud = new_core(LcsfModeEnum::Normal, dummy_send_callback, true);
    assert_eq!(
        loud.receive_raw(&[0xab, 0x12, 0x00]),
        Err(Some(vec![
            0xff, 0xff, 0x00, 0x00, 0x02, 0x00, 0x00, 0x00, 0x01, 0x00, 0x00, 0x01, 0x00, 0x01,
            0x00, 0x00,
        ]))
    );
    assert_eq!(
        loud.receive_raw(&[0xab, 0x00, 0x12, 0x00, 0x00, 0x00]),
        Ok(LcsfRawMsg { prot_id: 0xab, cmd_id: 0x12, att_nb: 0, att_arr: Vec::new() })
    );
}

fn stack_prot_desc() -> LcsfProtDesc {
    let leaf = |is_optional: bool, data_type: LcsfDataType| LcsfAttDesc {
        is_optional,
        data_type,
        subatt_desc_arr: Vec::new(),
    };
    let node = |is_optional: bool, subatt_desc_arr: Vec<(u16, LcsfAttDesc)>| LcsfAttDesc {
        is_optional,
        data_type: LcsfDataType::Subattributes,
        subatt_desc_arr,
    };
    LcsfProtDesc {
        cmd_desc_arr: vec![
            (0x00, LcsfCmdDesc { att_desc_arr: Vec::new() }),
            (
                0x04,
                LcsfCmdDesc {
                    att_desc_arr: vec![
                        (0x00, leaf(false, LcsfDataType::Uint8)),
                        (0x01, leaf(false, LcsfDataType::Uint16)),
                        (0x02, leaf(false, LcsfDataType::Uint32)),
                        (0x03, leaf(false, LcsfDataType::ByteArray)),
                        (0x04, leaf(false, LcsfDataType::String)),
                        (0x05, leaf(true, LcsfDataType::Uint8)),
                        (0x06, leaf(true, LcsfDataType::Uint16)),
                        (0x07, leaf(true, LcsfDataType::Uint32)),
                        (0x08, leaf(true, LcsfDataType::ByteArray)),
                        (0x09, leaf(true, LcsfDataType::String)),
                    ],
                },
            ),
            (
                0x07,
                LcsfCmdDesc {
                    att_desc_arr: vec![
                        (0x01, leaf(false, LcsfDataType::Uint16)),
                        (
                            0x0a,
                            node(
                                false,
                                vec![
                                    (0x00, leaf(false, LcsfDataType::Uint8)),
                                    (0x01, leaf(false, LcsfDataType::Uint16)),
                                    (0x02, leaf(true, LcsfDataType::Uint32)),
                                ],
                            ),
                        ),
                        (
                            0x0b,
                            node(
                                true,
                                vec![
                                    (0x00, leaf(true, LcsfDataType::Uint8)),
                                    (
                                        0x0b,
                                        node(
                                            false,
                                            vec![
                                                (0x00, leaf(true, LcsfDataType::Uint8)),
                                                (
                                                    0x0a,
                                                    node(
                                                        false,
                                                        vec![(
                                                            0x03,
                                                            leaf(false, LcsfDataType::ByteArray),
                                                        )],
                                                    ),
                                                ),
                                            ],
                                        ),
                                    ),
                                ],
                            ),
                        ),
                    ],
                },
            ),
        ],
    }
}

fn error_msg(loc: u8, error_type: u8) -> Option<Vec<u8>> {
    Some(vec![0xff, 0x00, 0x02, 0x00, 0x01, loc, 0x01, 0x01, error_type])
}

#[test]
fn each_refused_message_gets_its_error_message() {
    let mut core = new_core(LcsfModeEnum::Small, dummy_send_callback, true);
    core.add_protocol(0x55, stack_prot_desc(), ProtCallback(dummy_prot_callback));

    let bad_format_msg: Vec<u8> = vec![0x55, 0x00, 0x05];
    let bad_prot_id_msg: Vec<u8> = vec![0x21, 0x00, 0x00];
    let bad_cmd_id_msg: Vec<u8> = vec![0x55, 0x4c, 0x00];
    let bad_att_id_msg: Vec<u8> = vec![
        0x55, 0x04, 0x06, // CC2
        0x00, 0x01, 0x00, // SA1
        0x01, 0x02, 0x00, 0x00, // SA2
        0x02, 0x04, 0x00, 0x00, 0x00, 0x00, // SA3
        0x03, 0x05, 0x00, 0x00, 0x00, 0x00, 0x00, // SA4
        0x04, 0x01, 0x00, // SA5
        0x48, 0x01, 0x00, // Wrong att
    ];
    let extra_att_msg: Vec<u8> = vec![0x55, 0x00, 0x01, 0x00, 0x01, 0x00];
    let miss_att_msg: Vec<u8> = vec![
        0x55, 0x04, 0x05, // CC2
        0x00, 0x01, 0x00, // SA1
        0x01, 0x02, 0x00, 0x00, // SA2
        0x02, 0x04, 0x00, 0x00, 0x00, 0x00, // SA3
        0x03, 0x05, 0x00, 0x00, 0x00, 0x00, 0x00, // SA4
        0x05, 0x01, 0x00, // SA6
    ];
    let bad_data_type_msg: Vec<u8> = vec![
        0x55, 0x04, 0x05, // CC2
        0x00, 0x04, 0x00, 0x00, 0x00, 0x00, // SA1
        0x01, 0x02, 0x00, 0x00, // SA2
        0x02, 0x04, 0x00, 0x00, 0x00, 0x00, // SA3
        0x03, 0x05, 0x00, 0x00, 0x00, 0x00, 0x00, // SA4
        0x04, 0x01, 0x00, // SA5
    ];
    let bad_subatt_id_msg: Vec<u8> = vec![
        0x55, 0x07, 0x03, // CC5
        0x01, 0x02, 0x11, 0x02, // SA2
        0x8a, 0x02, // CA5
        0x00, 0x01, 0x23, // CA5_SA1
        0x01, 0x02, 0x0f, 0x20, // CA5_SA2
        0x8b, 0x02, // CA6
        0x01, 0x01, 0xa9, // BAD_CA6_SA1
        0x8b, 0x01, // CA6_CA7
        0x8a, 0x01, // CA7_CA8
        0x03, 0x05, 0x0a, 0x0b, 0x0c, 0x0d, 0x0e, // CA8_SA4
    ];
    let extra_subatt_msg: Vec<u8> = vec![
        0x55, 0x07, 0x03, // CC5
        0x01, 0x02, 0x11, 0x02, // SA2
        0x8a, 0x02, // CA5
        0x00, 0x01, 0x23, // CA5_SA1
        0x01, 0x02, 0x0f, 0x20, // CA5_SA2
        0x8b, 0x03, // CA6
        0x00, 0x01, 0xa9, // CA6_SA1
        0x01, 0x01, 0xa9, // Extra CA6 att
        0x8b, 0x01, // CA6_CA7
        0x8a, 0x01, // CA7_CA8
        0x03, 0x05, 0x0a, 0x0b, 0x0c, 0x0d, 0x0e, // CA8_SA4
    ];
    let miss_subatt_msg: Vec<u8> = vec![
        0x55, 0x07, 0x03, // CC5
        0x01, 0x02, 0x11, 0x02, // SA2
        0x8a, 0x02, // CA5
        0x00, 0x01, 0x23, // CA5_SA1
        0x01, 0x02, 0x0f, 0x20, // CA5_SA2
        0x8b, 0x02, // CA6
        0x00, 0x01, 0xa9, // CA6_SA1
        0x8b, 0x01, // CA6_CA7
        0x00, 0x01, 0xa9, // CA7_SA1
    ];
    let bad_subatt_data_type_msg: Vec<u8> = vec![
        0x55, 0x07, 0x03, // CC5
        0x01, 0x02, 0x11, 0x02, // SA2
        0x8a, 0x02, // CA5
        0x00, 0x01, 0x23, // CA5_SA1
        0x01, 0x02, 0x0f, 0x20, // CA5_SA2
        0x8b, 0x02, // CA6
        0x00, 0x02, 0xa9, 0x01, // CA6_SA1
        0x8b, 0x01, // CA6_CA7
        0x03, 0x05, 0x0a, 0x0b, 0x0c, 0x0d, 0x0e, // CA8_SA4
    ];

    assert_eq!(core.receive_buff(&bad_format_msg).err(), Some(error_msg(0, 0)));
    assert_eq!(core.receive_buff(&bad_prot_id_msg).err(), Some(error_msg(1, 0)));
    assert_eq!(core.receive_buff(&bad_cmd_id_msg).err(), Some(error_msg(1, 1)));
    assert_eq!(core.receive_buff(&bad_att_id_msg).err(), Some(error_msg(1, 2)));
    assert_eq!(core.receive_buff(&extra_att_msg).err(), Some(error_msg(1, 3)));
    assert_eq!(core.receive_buff(&miss_att_msg).err(), Some(error_msg(1, 4)));
    assert_eq!(core.receive_buff(&bad_data_type_msg).err(), Some(error_msg(1, 5)));
    assert_eq!(core.receive_buff(&bad_subatt_id_msg).err(), Some(error_msg(1, 2)));
    assert_eq!(core.receive_buff(&extra_subatt_msg).err(), Some(error_msg(1, 3)));
    assert_eq!(core.receive_buff(&miss_subatt_msg).err(), Some(error_msg(1, 4)));
    assert_eq!(core.receive_buff(&bad_subatt_data_type_msg).err(), Some(error_msg(1, 5)));
}

#[test]
fn a_received_command_comes_back_when_sent() {
    let mut core = new_core(LcsfModeEnum::Small, dummy_send_callback, true);
    core.add_protocol(0x55, stack_prot_desc(), ProtCallback(dummy_prot_callback));
    let cc2_msg: Vec<u8> = vec![
        0x55, 0x04, 0x09, // CC2
        0x00, 0x01, 0x00, // SA1
        0x01, 0x02, 0xD0, 0x07, // SA2
        0x02, 0x04, 0xa0, 0x86, 0x01, 0x00, // SA3
        0x03, 0x05, 0x05, 0x04, 0x03, 0x02, 0x01, // SA4
        0x04, 0x04, 0x42, 0x6f, 0x62, 0x00, // SA5
        0x05, 0x01, 0x03, // SA6
        0x07, 0x04, 0xef, 0x49, 0x02, 0x00, // SA8
        0x08, 0x05, 0x01, 0x02, 0x03, 0x04, 0x05, // SA9
        0x09, 0x05, 0x50, 0x61, 0x75, 0x6c, 0x00, // SA10
    ];
    let cc5_msg: Vec<u8> = vec![
        0x55, 0x07, 0x03, // CC5
        0x01, 0x02, 0x11, 0x02, // SA2
        0x8a, 0x02, // CA5
        0x00, 0x01, 0x23, // CA5_SA1
        0x01, 0x02, 0x0f, 0x20, // CA5_SA2
        0x8b, 0x02, // CA6
        0x00, 0x01, 0xa9, // CA6_SA1
        0x8b, 0x01, // CA6_CA7
        0x8a, 0x01, // CA7_CA8
        0x03, 0x05, 0x0a, 0x0b, 0x0c, 0x0d, 0x0e, // CA8_SA4
    ];
    for buff in [vec![0x55, 0x00, 0x00], cc2_msg, cc5_msg] {
        let (_, valid_cmd) = core.receive_buff(&buff).ok().unwrap();
        assert_eq!(core.send_cmd(0x55, &valid_cmd), Ok(buff));
    }
}

#[test]
fn each_send_error() {
    let mut core = new_core(LcsfModeEnum::Small, dummy_send_callback, false);
    core.add_protocol(0x55, stack_prot_desc(), ProtCallback(dummy_prot_callback));
    let empty_cmd = |cmd_id: u16| LcsfValidCmd { cmd_id, att_arr: Vec::new() };
    assert_eq!(core.send_cmd(0x56, &empty_cmd(0x00)), Err(LcsfSendErrorEnum::UnknownProtId));
    assert_eq!(core.send_cmd(0x55, &empty_cmd(0x01)), Err(LcsfSendErrorEnum::UnknownCmdId));
    assert_eq!(core.send_cmd(0x55, &empty_cmd(0x04)), Err(LcsfSendErrorEnum::InvalidCmd));
    assert_eq!(core.send_cmd(0x55, &empty_cmd(0x00)), Ok(vec![0x55, 0x00, 0x00]));
    let error_cmd = LcsfValidCmd {
        cmd_id: 0,
        att_arr: vec![
            LcsfValidAtt { payload: LcsfValidAttPayload::Data(vec![1]) },
            LcsfValidAtt { payload: LcsfValidAttPayload::Data(vec![4]) },
        ],
    };
    assert_eq!(
        core.send_cmd(0xff, &error_cmd),
        Ok(vec![0xff, 0x00, 0x02, 0x00, 0x01, 0x01, 0x01, 0x01, 0x04])
    );
}

#[test]
fn send_raw_skips_attributes_of_size_zero() {
    let core = new_core(LcsfModeEnum::Normal, dummy_send_callback, false);
    let raw_msg = LcsfRawMsg {
        prot_id: 0x1234,
        cmd_id: 0x0001,
        att_nb: 1,
        att_arr: vec![
            (
                0x0001,
                LcsfRawAtt {
                    has_subatt: false,
                    payload_size: 0,
                    payload: LcsfRawAttPayload::Data(Vec::new()),
                },
            ),
            (
                0x0002,
                LcsfRawAtt {
                    has_subatt: false,
                    payload_size: 1,
                    payload: LcsfRawAttPayload::Data(vec![0x2a]),
                },
            ),
        ],
    };
    assert_eq!(
        core.send_raw(&raw_msg),
        vec![0x34, 0x12, 0x01, 0x00, 0x01, 0x00, 0x02, 0x00, 0x01, 0x00, 0x2a]
    );
}

#[test]
fn a_sent_command_is_received_as_it_was_sent() {
    for mode in [LcsfModeEnum::Small, LcsfModeEnum::Normal] {
        let mut core = new_core(mode, dummy_send_callback, true);
        core.add_protocol(0x55, stack_prot_desc(), ProtCallback(test_prot_callback));
        let data = |bytes: &[u8]| LcsfValidAtt { payload: LcsfValidAttPayload::Data(bytes.to_vec()) };
        let node = |subatts: Vec<LcsfValidAtt>| LcsfValidAtt {
            payload: LcsfValidAttPayload::SubattArr(subatts),
        };
        let valid_cmd = LcsfValidCmd {
            cmd_id: 0x07,
            att_arr: vec![
                data(&[0x11, 0x02]),
                node(vec![data(&[0x23]), data(&[0x0f, 0x20]), data(&[])]),
                node(vec![
                    data(&[]),
                    node(vec![data(&[0xa9]), node(vec![data(&[0x0a, 0x0b, 0x0c])])]),
                ]),
            ],
        };
        let buff = core.send_cmd(0x55, &valid_cmd).unwrap();
        match core.receive_buff(&buff) {
            Ok((prot_cb, received)) => {
                assert!(same_cb(prot_cb, test_prot_callback));
                assert_eq!(received, valid_cmd);
            }
            Err(_) => panic!("receive_buff should not fail"),
        }
    }
}

#[test]
fn an_answer_is_read_by_the_peer() {
    for mode in [LcsfModeEnum::Small, LcsfModeEnum::Normal] {
        let core = new_core(mode, dummy_send_callback, true);
        let peer = new_core(mode, dummy_send_callback, false);
        // An unknown protocol id
        let unknown: &[u8] = match mode {
            LcsfModeEnum::Small => &[0x21, 0x00, 0x00],
            LcsfModeEnum::Normal => &[0x21, 0x00, 0x00, 0x00, 0x00, 0x00],
        };
        let answer = core.receive_buff(unknown).err().unwrap().unwrap();
        match peer.receive_buff(&answer) {
            Ok((prot_cb, error_cmd)) => {
                assert!(same_cb(prot_cb, def_process_error));
                assert!(is_error_cmd(&error_cmd));
                assert_eq!(process_error(&error_cmd), ("Validator", "Unknown protocol id"));
            }
            Err(_) => panic!("receive_buff should not fail"),
        }
        // A buffer that is cut short
        let answer = core.receive_buff(&[0x21]).err().unwrap().unwrap();
        let (_, error_cmd) = peer.receive_buff(&answer).ok().unwrap();
        assert_eq!(process_error(&error_cmd), ("Decoder", "Bad format"));
    }
}
