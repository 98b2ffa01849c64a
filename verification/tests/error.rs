use lcsf::lcsf_error::{
    encode_error, ep_prot_id, is_error_cmd, lcsf_ep_prot_desc, process_error, LcsfEpLocEnum,
    LCSF_EP_ERR_CMD_ATT_NB, LCSF_EP_ERR_CMD_ID, LCSF_EP_LOC_ATT_ID, LCSF_EP_PROT_ID_NORMAL,
    LCSF_EP_PROT_ID_SMALL, LCSF_EP_TYPE_ATT_ID,
};
use lcsf::lcsf_transcoder::{decode_buff, LcsfDecodeErrorEnum, LcsfModeEnum};
use lcsf::lcsf_validator::{
    validate_msg, LcsfAttDesc, LcsfCmdDesc, LcsfDataType, LcsfProtDesc, LcsfValidAtt,
    LcsfValidAttPayload, LcsfValidCmd, LcsfValidateErrorEnum,
};
use std::collections::HashMap;

fn error_cmd(loc: u8, error_type: u8) -> LcsfValidCmd {
    LcsfValidCmd {
        cmd_id: LCSF_EP_ERR_CMD_ID,
        att_arr: vec![
            LcsfValidAtt { payload: LcsfValidAttPayload::Data(vec![loc]) },
            LcsfValidAtt { payload: LcsfValidAttPayload::Data(vec![error_type]) },
        ],
    }
}

#[test]
pub fn test_encode_error() {
    // Test data
    let buff_small: Vec<u8> = vec![0xff, 0x00, 0x02, 0x00, 0x01, 0x01, 0x01, 0x01, 0x05];
    let buff_normal: Vec<u8> = vec![
        0xff, 0xff, 0x00, 0x00, 0x02, 0x00, 0x00, 0x00, 0x01, 0x00, 0x00, 0x01, 0x00, 0x01,
        0x00, 0x00,
    ];
    assert_eq!(
        buff_small,
        encode_error(
            LcsfModeEnum::Small,
            LcsfEpLocEnum::ValidationError,
            LcsfValidateErrorEnum::WrongAttDataType.code()
        )
    );
    assert_eq!(
        buff_normal,
        encode_error(
            LcsfModeEnum::Normal,
            LcsfEpLocEnum::DecodeError,
            LcsfDecodeErrorEnum::FormatErr.code()
        )
    );
}

#[test]
pub fn test_process_error() {
    let mut valid_cmd = LcsfValidCmd {
        cmd_id: LCSF_EP_ERR_CMD_ID,
        att_arr: vec![
            LcsfValidAtt {
                payload: LcsfValidAttPayload::Data(vec![0x00]),
            },
            LcsfValidAtt {
                payload: LcsfValidAttPayload::Data(vec![0x01]),
            },
        ],
    };
    let (mut loc_str, mut type_str) = process_error(&valid_cmd);
    assert_eq!(loc_str, "Decoder");
    assert_eq!(type_str, "Overflow");

    valid_cmd = LcsfValidCmd {
        cmd_id: LCSF_EP_ERR_CMD_ID,
        att_arr: vec![
            LcsfValidAtt {
                payload: LcsfValidAttPayload::Data(vec![0x01]),
            },
            LcsfValidAtt {
                payload: LcsfValidAttPayload::Data(vec![0x04]),
            },
        ],
    };
    (loc_str, type_str) = process_error(&valid_cmd);
    assert_eq!(loc_str, "Validator");
    assert_eq!(type_str, "Missing mandatory attribute");
}

#[test]
fn every_error_has_its_name() {
    let names = [
        (0, 0, "Decoder", "Bad format"),
        (0, 1, "Decoder", "Overflow"),
        (0, 2, "Decoder", "Unknown"),
        (1, 0, "Validator", "Unknown protocol id"),
        (1, 1, "Validator", "Unknown command id"),
        (1, 2, "Validator", "Unknown attribute id"),
        (1, 3, "Validator", "Too many attributes received"),
        (1, 4, "Validator", "Missing mandatory attribute"),
        (1, 5, "Validator", "Wrong attribute data type"),
        (1, 6, "Validator", "Unknown"),
        (2, 0, "Unknown", "Unknown"),
        (0xff, 5, "Unknown", "Unknown"),
    ];
    for (loc, error_type, loc_str, type_str) in names {
        assert_eq!(process_error(&error_cmd(loc, error_type)), (loc_str, type_str));
    }
}

#[test]
fn a_node_in_an_error_command_reads_as_zero() {
    let valid_cmd = LcsfValidCmd {
        cmd_id: LCSF_EP_ERR_CMD_ID,
        att_arr: vec![
            LcsfValidAtt { payload: LcsfValidAttPayload::SubattArr(Vec::new()) },
            LcsfValidAtt { payload: LcsfValidAttPayload::Data(vec![0x01, 0x09]) },
        ],
    };
    assert!(is_error_cmd(&valid_cmd));
    assert_eq!(process_error(&valid_cmd), ("Decoder", "Overflow"));
}

#[test]
fn commands_that_are_no_error_commands() {
    assert!(is_error_cmd(&error_cmd(0, 0)));
    let short = LcsfValidCmd {
        cmd_id: 0,
        att_arr: vec![LcsfValidAtt { payload: LcsfValidAttPayload::Data(vec![0]) }],
    };
    assert!(!is_error_cmd(&short));
    let no_loc = LcsfValidCmd {
        cmd_id: 0,
        att_arr: vec![
            LcsfValidAtt { payload: LcsfValidAttPayload::Data(Vec::new()) },
            LcsfValidAtt { payload: LcsfValidAttPayload::Data(vec![0]) },
        ],
    };
    assert!(!is_error_cmd(&no_loc));
    let no_type = LcsfValidCmd {
        cmd_id: 0,
        att_arr: vec![
            LcsfValidAtt { payload: LcsfValidAttPayload::Data(vec![0]) },
            LcsfValidAtt { payload: LcsfValidAttPayload::Data(Vec::new()) },
        ],
    };
    assert!(!is_error_cmd(&no_type));
}

#[test]
fn the_error_protocol_descriptor() {
    let u8_desc = || LcsfAttDesc {
        is_optional: false,
        data_type: LcsfDataType::Uint8,
        subatt_desc_arr: Vec::new(),
    };
    let expected = LcsfProtDesc {
        cmd_desc_arr: vec![(
            0x00,
            LcsfCmdDesc { att_desc_arr: vec![(0x00, u8_desc()), (0x01, u8_desc())] },
        )],
    };
    assert_eq!(lcsf_ep_prot_desc(), expected);
    assert_eq!(LCSF_EP_PROT_ID_SMALL, 0x00ff);
    assert_eq!(LCSF_EP_PROT_ID_NORMAL, 0xffff);
    assert_eq!(ep_prot_id(LcsfModeEnum::Small), 0x00ff);
    assert_eq!(ep_prot_id(LcsfModeEnum::Normal), 0xffff);
    assert_eq!(LCSF_EP_LOC_ATT_ID, 0);
    assert_eq!(LCSF_EP_TYPE_ATT_ID, 1);
    assert_eq!(LCSF_EP_ERR_CMD_ATT_NB, 2);
    assert_eq!(LcsfEpLocEnum::DecodeError.code(), 0);
    assert_eq!(LcsfEpLocEnum::ValidationError.code(), 1);
}

#[test]
fn an_encoded_error_is_a_valid_error_command() {
    for mode in [LcsfModeEnum::Small, LcsfModeEnum::Normal] {
        let table = HashMap::from([(ep_prot_id(mode), lcsf_ep_prot_desc())]);
        for (loc, loc_code) in [(LcsfEpLocEnum::DecodeError, 0u8), (LcsfEpLocEnum::ValidationError, 1)] {
            for error_type in [0u8, 1, 5, 0x80, 0xff] {
                let buffer = encode_error(mode, loc, error_type);
                let raw_msg = decode_buff(mode, &buffer).unwrap();
                let (valid_cmd, prot_id) = validate_msg(&table, &raw_msg).unwrap();
                assert_eq!(prot_id, ep_prot_id(mode));
                assert_eq!(valid_cmd, error_cmd(loc_code, error_type));
                assert!(is_error_cmd(&valid_cmd));
            }
        }
    }
}
