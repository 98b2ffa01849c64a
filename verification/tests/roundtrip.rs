use lcsf::lcsf_transcoder::{
    decode_buff, encode_buff, LcsfDecodeErrorEnum, LcsfModeEnum, LcsfRawAtt, LcsfRawAttPayload,
    LcsfRawMsg,
};
use lcsf::lcsf_validator::{
    encode_valid, validate_msg, LcsfAttDesc, LcsfCmdDesc, LcsfDataType, LcsfProtDesc,
    LcsfValidAtt, LcsfValidAttPayload, LcsfValidCmd, LcsfValidateErrorEnum,
};
use std::collections::HashMap;

fn raw_data(data: Vec<u8>) -> LcsfRawAtt {
    LcsfRawAtt {
        has_subatt: false,
        payload_size: data.len() as u16,
        payload: LcsfRawAttPayload::Data(data),
    }
}

fn raw_node(subatts: Vec<(u16, LcsfRawAtt)>) -> LcsfRawAtt {
    LcsfRawAtt {
        has_subatt: true,
        payload_size: subatts.len() as u16,
        payload: LcsfRawAttPayload::SubattArr(subatts),
    }
}

fn placeholder() -> LcsfRawAtt {
    raw_data(Vec::new())
}

fn raw_msg(prot_id: u16, cmd_id: u16, att_arr: Vec<(u16, LcsfRawAtt)>) -> LcsfRawMsg {
    LcsfRawMsg { prot_id, cmd_id, att_nb: att_arr.len() as u16, att_arr }
}

fn valid_data(data: Vec<u8>) -> LcsfValidAtt {
    LcsfValidAtt { payload: LcsfValidAttPayload::Data(data) }
}

fn valid_node(subatts: Vec<LcsfValidAtt>) -> LcsfValidAtt {
    LcsfValidAtt { payload: LcsfValidAttPayload::SubattArr(subatts) }
}

fn leaf(is_optional: bool, data_type: LcsfDataType) -> LcsfAttDesc {
    LcsfAttDesc { is_optional, data_type, subatt_desc_arr: Vec::new() }
}

fn node(is_optional: bool, subatt_desc_arr: Vec<(u16, LcsfAttDesc)>) -> LcsfAttDesc {
    LcsfAttDesc { is_optional, data_type: LcsfDataType::Subattributes, subatt_desc_arr }
}

/// One command, 0x01: a byte, an optional word, and a node of an optional
/// byte and a mandatory string.
fn table() -> HashMap<u16, LcsfProtDesc> {
    let cmd_desc = LcsfCmdDesc {
        att_desc_arr: vec![
            (0x01, leaf(false, LcsfDataType::Uint8)),
            (0x02, leaf(true, LcsfDataType::Uint16)),
            (
                0x03,
                node(
                    false,
                    vec![
                        (0x01, leaf(true, LcsfDataType::Uint8)),
                        (0x02, leaf(false, LcsfDataType::String)),
                    ],
                ),
            ),
        ],
    };
    HashMap::from([(0x10u16, LcsfProtDesc { cmd_desc_arr: vec![(0x01, cmd_desc)] })])
}

fn cmd_desc_of(table: &HashMap<u16, LcsfProtDesc>) -> &LcsfCmdDesc {
    &table[&0x10].cmd_desc_arr[0].1
}

/// A small generator of numbers that follow no pattern.
struct Dice(u64);

impl Dice {
    fn roll(&mut self, sides: u64) -> u64 {
        self.0 = self.0.wrapping_mul(6364136223846793005).wrapping_add(1442695040888963407);
        (self.0 >> 33) % sides
    }
}

fn sizes_are_counts(att_arr: &[(u16, LcsfRawAtt)]) -> bool {
    att_arr.iter().all(|(_, att)| match &att.payload {
        LcsfRawAttPayload::Data(data) => !att.has_subatt && att.payload_size as usize == data.len(),
        LcsfRawAttPayload::SubattArr(subatts) => {
            att.has_subatt && att.payload_size as usize == subatts.len() && sizes_are_counts(subatts)
        }
    })
}

fn no_size_is_zero(att_arr: &[(u16, LcsfRawAtt)]) -> bool {
    att_arr.iter().all(|(_, att)| {
        att.payload_size != 0
            && match &att.payload {
                LcsfRawAttPayload::Data(_) => true,
                LcsfRawAttPayload::SubattArr(subatts) => no_size_is_zero(subatts),
            }
    })
}

#[test]
fn decoding_any_bytes_gives_a_sound_message_or_a_format_error() {
    let mut dice = Dice(0x1c5f);
    let mut decoded = 0;
    for round in 0..20000 {
        let mode = if round % 2 == 0 { LcsfModeEnum::Small } else { LcsfModeEnum::Normal };
        let len = dice.roll(24) as usize;
        // Small values make headers that are often met by what follows.
        let buffer: Vec<u8> = (0..len)
            .map(|_| match dice.roll(4) {
                0 => dice.roll(256) as u8,
                1 => 0x80 + dice.roll(3) as u8,
                _ => dice.roll(3) as u8,
            })
            .collect();
        match decode_buff(mode, &buffer) {
            Err(err) => assert_eq!(err, LcsfDecodeErrorEnum::FormatErr),
            Ok(msg) => {
                decoded += 1;
                assert_eq!(msg.att_nb as usize, msg.att_arr.len());
                assert!(sizes_are_counts(&msg.att_arr));
                if no_size_is_zero(&msg.att_arr) {
                    assert_eq!(encode_buff(mode, &msg), buffer);
                }
            }
        }
    }
    assert!(decoded > 100);
}

fn random_atts(dice: &mut Dice, depth: u32, max_id: u64) -> Vec<(u16, LcsfRawAtt)> {
    let count = dice.roll(4) as usize;
    (0..count)
        .map(|_| {
            let att_id = dice.roll(max_id) as u16;
            if depth > 0 && dice.roll(3) == 0 {
                let mut subatts = random_atts(dice, depth - 1, max_id);
                if subatts.is_empty() {
                    subatts.push((0, raw_data(vec![0x5a])));
                }
                (att_id, raw_node(subatts))
            } else {
                let len = 1 + dice.roll(5) as usize;
                (att_id, raw_data((0..len).map(|_| dice.roll(256) as u8).collect()))
            }
        })
        .collect()
}

#[test]
fn encoding_then_decoding_gives_any_sound_message_back() {
    let mut dice = Dice(0x2a);
    for round in 0..2000 {
        let (mode, max_field, max_id) = if round % 2 == 0 {
            (LcsfModeEnum::Small, 0x100, 0x80)
        } else {
            (LcsfModeEnum::Normal, 0x10000, 0x8000)
        };
        let att_arr = random_atts(&mut dice, 3, max_id);
        let msg = raw_msg(dice.roll(max_field) as u16, dice.roll(max_field) as u16, att_arr);
        let buffer = encode_buff(mode, &msg);
        assert_eq!(decode_buff(mode, &buffer), Ok(msg));
    }
}

#[test]
fn a_message_that_does_not_fit_the_mode_does_not_come_back() {
    let wide_id = raw_msg(0x1ab, 0x12, Vec::new());
    let buffer = encode_buff(LcsfModeEnum::Small, &wide_id);
    assert_eq!(decode_buff(LcsfModeEnum::Small, &buffer), Ok(raw_msg(0xab, 0x12, Vec::new())));
    let flagged_id = raw_msg(0x01, 0x02, vec![(0x8001, raw_data(vec![7]))]);
    let buffer = encode_buff(LcsfModeEnum::Normal, &flagged_id);
    assert_eq!(
        decode_buff(LcsfModeEnum::Normal, &buffer),
        Ok(raw_msg(0x01, 0x02, vec![(0x0001, raw_data(vec![7]))]))
    );
}

#[test]
fn a_message_with_a_size_of_zero_does_not_come_back() {
    let msg = raw_msg(0x01, 0x02, vec![(0x03, placeholder()), (0x04, raw_data(vec![9]))]);
    let buffer = encode_buff(LcsfModeEnum::Small, &msg);
    assert_eq!(buffer, vec![0x01, 0x02, 0x02, 0x04, 0x01, 0x09]);
    assert_eq!(decode_buff(LcsfModeEnum::Small, &buffer), Err(LcsfDecodeErrorEnum::FormatErr));
}

#[test]
fn a_message_in_the_order_of_its_descriptor_comes_back() {
    let table = table();
    let rx_msg = raw_msg(
        0x10,
        0x01,
        vec![(0x01, raw_data(vec![7])), (0x03, raw_node(vec![(0x02, raw_data(b"ab\0".to_vec()))]))],
    );
    let (valid_cmd, prot_id) = validate_msg(&table, &rx_msg).unwrap();
    assert_eq!(prot_id, 0x10);
    assert_eq!(
        valid_cmd,
        LcsfValidCmd {
            cmd_id: 0x01,
            att_arr: vec![
                valid_data(vec![7]),
                valid_data(Vec::new()),
                valid_node(vec![valid_data(Vec::new()), valid_data(b"ab\0".to_vec())]),
            ],
        }
    );
    let again = encode_valid(prot_id, cmd_desc_of(&table), &valid_cmd).unwrap();
    assert_eq!(
        again,
        LcsfRawMsg {
            prot_id: 0x10,
            cmd_id: 0x01,
            att_nb: 2,
            att_arr: vec![
                (0x01, raw_data(vec![7])),
                (0x02, placeholder()),
                (
                    0x03,
                    LcsfRawAtt {
                        has_subatt: true,
                        payload_size: 1,
                        payload: LcsfRawAttPayload::SubattArr(vec![
                            (0x01, placeholder()),
                            (0x02, raw_data(b"ab\0".to_vec())),
                        ]),
                    }
                ),
            ],
        }
    );
    for mode in [LcsfModeEnum::Small, LcsfModeEnum::Normal] {
        assert_eq!(encode_buff(mode, &again), encode_buff(mode, &rx_msg));
        assert_eq!(decode_buff(mode, &encode_buff(mode, &again)), Ok(rx_msg.clone()));
    }
}

#[test]
fn a_message_in_another_order_comes_back_in_the_order_of_its_descriptor() {
    let table = table();
    let in_order = raw_msg(
        0x10,
        0x01,
        vec![
            (0x01, raw_data(vec![7])),
            (0x02, raw_data(vec![1, 2])),
            (
                0x03,
                raw_node(vec![(0x01, raw_data(vec![3])), (0x02, raw_data(b"ab\0".to_vec()))]),
            ),
        ],
    );
    let shuffled = raw_msg(
        0x10,
        0x01,
        vec![
            (
                0x03,
                raw_node(vec![(0x02, raw_data(b"ab\0".to_vec())), (0x01, raw_data(vec![3]))]),
            ),
            (0x01, raw_data(vec![7])),
            (0x02, raw_data(vec![1, 2])),
        ],
    );
    let (valid_cmd, prot_id) = validate_msg(&table, &shuffled).unwrap();
    assert_eq!(validate_msg(&table, &in_order), Ok((valid_cmd.clone(), prot_id)));
    assert_eq!(encode_valid(prot_id, cmd_desc_of(&table), &valid_cmd), Some(in_order));
}

#[test]
fn a_node_without_sub_attributes_does_not_come_back() {
    let only_optional = LcsfCmdDesc {
        att_desc_arr: vec![(0x0a, node(false, vec![(0x01, leaf(true, LcsfDataType::Uint8))]))],
    };
    let table =
        HashMap::from([(0x10u16, LcsfProtDesc { cmd_desc_arr: vec![(0x01, only_optional)] })]);
    let rx_msg = decode_buff(LcsfModeEnum::Small, &[0x10, 0x01, 0x01, 0x8a, 0x00]).unwrap();
    assert_eq!(rx_msg, raw_msg(0x10, 0x01, vec![(0x0a, raw_node(Vec::new()))]));
    let (valid_cmd, prot_id) = validate_msg(&table, &rx_msg).unwrap();
    assert_eq!(valid_cmd.att_arr, vec![valid_node(vec![valid_data(Vec::new())])]);
    let again = encode_valid(prot_id, cmd_desc_of(&table), &valid_cmd).unwrap();
    assert_eq!(again.att_nb, 1);
    assert_eq!(
        again.att_arr,
        vec![(
            0x0a,
            LcsfRawAtt {
                has_subatt: true,
                payload_size: 0,
                payload: LcsfRawAttPayload::SubattArr(vec![(0x01, placeholder())]),
            }
        )]
    );
    assert_eq!(encode_buff(LcsfModeEnum::Small, &again), vec![0x10, 0x01, 0x01]);
}

#[test]
fn a_validated_command_follows_its_descriptor() {
    let table = table();
    let rx_msg = raw_msg(
        0x10,
        0x01,
        vec![(0x03, raw_node(vec![(0x02, raw_data(vec![0x41, 0]))])), (0x01, raw_data(vec![0]))],
    );
    let (valid_cmd, _) = validate_msg(&table, &rx_msg).unwrap();
    let att_descs = &cmd_desc_of(&table).att_desc_arr;
    assert_eq!(valid_cmd.att_arr.len(), att_descs.len());
    // The mandatory attributes are not empty.
    assert_eq!(valid_cmd.att_arr[0], valid_data(vec![0]));
    match &valid_cmd.att_arr[2].payload {
        LcsfValidAttPayload::SubattArr(subatts) => {
            assert_eq!(subatts.len(), att_descs[2].1.subatt_desc_arr.len());
            assert_eq!(subatts[1], valid_data(vec![0x41, 0]));
        }
        LcsfValidAttPayload::Data(_) => panic!("a node was validated"),
    }
}

#[test]
fn the_first_failing_descriptor_gives_the_error() {
    let table = table();
    // The byte is missing and the word has a wrong size: the byte comes first.
    let rx_msg = raw_msg(0x10, 0x01, vec![(0x02, raw_data(vec![1]))]);
    assert_eq!(validate_msg(&table, &rx_msg), Err(LcsfValidateErrorEnum::MissMandatoryAtt));
    // The word has a wrong size and the node is missing: the word comes first.
    let rx_msg = raw_msg(0x10, 0x01, vec![(0x01, raw_data(vec![1])), (0x02, raw_data(vec![1]))]);
    assert_eq!(validate_msg(&table, &rx_msg), Err(LcsfValidateErrorEnum::WrongAttDataType));
    // An unknown id is seen only after every descriptor was looked at.
    let rx_msg = raw_msg(0x10, 0x01, vec![(0x01, raw_data(vec![1])), (0x09, raw_data(vec![1]))]);
    assert_eq!(validate_msg(&table, &rx_msg), Err(LcsfValidateErrorEnum::MissMandatoryAtt));
    let rx_msg = raw_msg(
        0x10,
        0x01,
        vec![
            (0x01, raw_data(vec![1])),
            (0x03, raw_node(vec![(0x02, raw_data(vec![0x41, 0]))])),
            (0x09, raw_data(vec![1])),
        ],
    );
    assert_eq!(validate_msg(&table, &rx_msg), Err(LcsfValidateErrorEnum::UnknownAttId));
    // An unknown id below is seen before the descriptors that follow above.
    let rx_msg = raw_msg(
        0x10,
        0x01,
        vec![
            (0x01, raw_data(vec![1])),
            (
                0x03,
                raw_node(vec![(0x02, raw_data(vec![0x41, 0])), (0x09, raw_data(vec![1]))]),
            ),
        ],
    );
    assert_eq!(validate_msg(&table, &rx_msg), Err(LcsfValidateErrorEnum::UnknownAttId));
    // A leaf where the descriptor has a node, and a node where it has a leaf.
    let rx_msg = raw_msg(0x10, 0x01, vec![(0x01, raw_data(vec![1])), (0x03, raw_data(vec![1]))]);
    assert_eq!(validate_msg(&table, &rx_msg), Err(LcsfValidateErrorEnum::WrongAttDataType));
    let rx_msg = raw_msg(
        0x10,
        0x01,
        vec![
            (0x01, raw_node(vec![(0x01, raw_data(vec![1]))])),
            (0x03, raw_node(vec![(0x02, raw_data(vec![0x41, 0]))])),
        ],
    );
    assert_eq!(validate_msg(&table, &rx_msg), Err(LcsfValidateErrorEnum::UnknownAttId));
}

#[test]
fn two_attributes_with_one_id_are_refused() {
    let table = table();
    let twice = raw_msg(
        0x10,
        0x01,
        vec![
            (0x01, raw_data(vec![1])),
            (0x01, raw_data(vec![2])),
            (0x03, raw_node(vec![(0x02, raw_data(vec![0x41, 0]))])),
        ],
    );
    assert_eq!(validate_msg(&table, &twice), Err(LcsfValidateErrorEnum::UnknownAttId));
    let twice_below = raw_msg(
        0x10,
        0x01,
        vec![
            (0x01, raw_data(vec![1])),
            (
                0x03,
                raw_node(vec![(0x02, raw_data(vec![0x41, 0])), (0x02, raw_data(vec![0x42, 0]))]),
            ),
        ],
    );
    assert_eq!(validate_msg(&table, &twice_below), Err(LcsfValidateErrorEnum::UnknownAttId));
}
