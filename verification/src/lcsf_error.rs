//! The error protocol: one command of two one-byte attributes, which tells
//! the peer where a message was refused and why.

use crate::lcsf_transcoder::{
    encode_buff, spec_decode_buff, spec_encode_atts, spec_encode_buff, LcsfModeEnum, LcsfRawAtt,
    LcsfRawAttPayload, LcsfRawMsg, RawAtt, RawMsg, RawPayload,
};
use crate::lcsf_transcoder_proof::lemma_decode_encoded_buff;
use crate::lcsf_validator::{
    lemma_find_last, spec_find_cmd_desc, spec_find_last, spec_validate_att, spec_validate_atts,
    spec_validate_found, spec_validate_msg, AttDesc, CmdDesc, LcsfAttDesc, LcsfCmdDesc,
    LcsfDataType, LcsfProtDesc, LcsfValidAttPayload, LcsfValidCmd, LcsfValidateErrorEnum,
    ProtDesc, ValidAtt, ValidCmd, ValidPayload,
};
use vstd::prelude::*;

verus! {

/// Id of the error protocol in normal mode.
pub const LCSF_EP_PROT_ID_NORMAL: u16 = 0xFFFF;

/// Id of the error protocol in small mode.
pub const LCSF_EP_PROT_ID_SMALL: u16 = 0x00FF;

/// Id of the only command of the error protocol.
pub const LCSF_EP_ERR_CMD_ID: u16 = 0x0000;

/// Id of the attribute that tells where the error was met.
pub const LCSF_EP_LOC_ATT_ID: u16 = 0x0000;

/// Id of the attribute that tells which error was met.
pub const LCSF_EP_TYPE_ATT_ID: u16 = 0x0001;

/// Number of attributes of the error command.
pub const LCSF_EP_ERR_CMD_ATT_NB: u16 = 2;

/// Where an error was met.
#[derive(Debug, PartialEq, Eq, Structural, Copy, Clone)]
pub enum LcsfEpLocEnum {
    /// While decoding a buffer.
    DecodeError,
    /// While validating a raw message.
    ValidationError,
}

/// The byte that stands for a location in an error message.
pub open spec fn spec_loc_code(error_loc: LcsfEpLocEnum) -> u8 {
    match error_loc {
        LcsfEpLocEnum::DecodeError => 0x00,
        LcsfEpLocEnum::ValidationError => 0x01,
    }
}

impl LcsfEpLocEnum {
    /// The byte that stands for the location in an error message.
    pub fn code(self) -> (code: u8)
        ensures
            code == spec_loc_code(self),
    {
        match self {
            LcsfEpLocEnum::DecodeError => 0x00,
            LcsfEpLocEnum::ValidationError => 0x01,
        }
    }
}

/// The id of the error protocol in a given mode.
pub open spec fn spec_ep_prot_id(mode: LcsfModeEnum) -> u16 {
    match mode {
        LcsfModeEnum::Small => LCSF_EP_PROT_ID_SMALL,
        LcsfModeEnum::Normal => LCSF_EP_PROT_ID_NORMAL,
    }
}

/// Gives the id of the error protocol in a given mode.
pub fn ep_prot_id(lcsf_mode: LcsfModeEnum) -> (prot_id: u16)
    ensures
        prot_id == spec_ep_prot_id(lcsf_mode),
{
    match lcsf_mode {
        LcsfModeEnum::Small => LCSF_EP_PROT_ID_SMALL,
        LcsfModeEnum::Normal => LCSF_EP_PROT_ID_NORMAL,
    }
}

/// The descriptor of a mandatory one-byte attribute.
pub open spec fn spec_ep_att_desc() -> AttDesc {
    AttDesc {
        is_optional: false,
        data_type: LcsfDataType::Uint8,
        subatt_desc_arr: Seq::empty(),
    }
}

/// The descriptor of the error protocol: one command, of two mandatory
/// one-byte attributes, the location and the type of the error.
pub open spec fn spec_ep_prot_desc() -> ProtDesc {
    ProtDesc {
        cmd_desc_arr: seq![
            (
                LCSF_EP_ERR_CMD_ID,
                CmdDesc {
                    att_desc_arr: seq![
                        (LCSF_EP_LOC_ATT_ID, spec_ep_att_desc()),
                        (LCSF_EP_TYPE_ATT_ID, spec_ep_att_desc()),
                    ],
                },
            ),
        ],
    }
}

/// Builds the descriptor of the error protocol.
pub fn lcsf_ep_prot_desc() -> (prot_desc: LcsfProtDesc)
    ensures
        prot_desc@ == spec_ep_prot_desc(),
{
    let loc_desc = LcsfAttDesc {
        is_optional: false,
        data_type: LcsfDataType::Uint8,
        subatt_desc_arr: Vec::new(),
    };
    let type_desc = LcsfAttDesc {
        is_optional: false,
        data_type: LcsfDataType::Uint8,
        subatt_desc_arr: Vec::new(),
    };
    proof {
        assert(loc_desc@.subatt_desc_arr =~= Seq::empty());
        assert(type_desc@.subatt_desc_arr =~= Seq::empty());
    }
    let mut att_desc_arr: Vec<(u16, LcsfAttDesc)> = Vec::new();
    att_desc_arr.push((LCSF_EP_LOC_ATT_ID, loc_desc));
    att_desc_arr.push((LCSF_EP_TYPE_ATT_ID, type_desc));
    let cmd_desc = LcsfCmdDesc { att_desc_arr };
    proof {
        assert(cmd_desc@.att_desc_arr =~= spec_ep_prot_desc().cmd_desc_arr[0].1.att_desc_arr);
    }
    let mut cmd_desc_arr: Vec<(u16, LcsfCmdDesc)> = Vec::new();
    cmd_desc_arr.push((LCSF_EP_ERR_CMD_ID, cmd_desc));
    let prot_desc = LcsfProtDesc { cmd_desc_arr };
    proof {
        assert(prot_desc@.cmd_desc_arr =~= spec_ep_prot_desc().cmd_desc_arr);
    }
    prot_desc
}

/// The bytes of an error message.
pub open spec fn spec_encode_error(mode: LcsfModeEnum, loc_code: u8, error_type: u8) -> Seq<u8> {
    match mode {
        LcsfModeEnum::Small => seq![
            0xffu8,
            0x00,
            0x02,
            0x00,
            0x01,
            loc_code,
            0x01,
            0x01,
            error_type,
        ],
        LcsfModeEnum::Normal => seq![
            0xffu8,
            0xff,
            0x00,
            0x00,
            0x02,
            0x00,
            0x00,
            0x00,
            0x01,
            0x00,
            loc_code,
            0x01,
            0x00,
            0x01,
            0x00,
            error_type,
        ],
    }
}

/// The raw message that reports an error.
pub open spec fn spec_error_msg(mode: LcsfModeEnum, loc_code: u8, error_type: u8) -> RawMsg {
    RawMsg {
        prot_id: spec_ep_prot_id(mode),
        cmd_id: LCSF_EP_ERR_CMD_ID,
        att_nb: LCSF_EP_ERR_CMD_ATT_NB,
        att_arr: seq![
            (
                LCSF_EP_LOC_ATT_ID,
                RawAtt {
                    has_subatt: false,
                    payload_size: 1,
                    payload: RawPayload::Data(seq![loc_code]),
                },
            ),
            (
                LCSF_EP_TYPE_ATT_ID,
                RawAtt {
                    has_subatt: false,
                    payload_size: 1,
                    payload: RawPayload::Data(seq![error_type]),
                },
            ),
        ],
    }
}

/// The error message, once encoded, is the fixed list of bytes.
pub proof fn lemma_error_msg_bytes(mode: LcsfModeEnum, loc_code: u8, error_type: u8)
    ensures
        spec_encode_buff(mode, spec_error_msg(mode, loc_code, error_type)) == spec_encode_error(
            mode,
            loc_code,
            error_type,
        ),
{
    let msg = spec_error_msg(mode, loc_code, error_type);
    let atts = msg.att_arr;
    reveal_with_fuel(spec_encode_atts, 3);
    assert(atts.skip(1).skip(1) =~= Seq::empty());
    assert(atts.skip(1)[0] == atts[1]);
    assert(spec_encode_buff(mode, msg) =~= spec_encode_error(mode, loc_code, error_type));
}

/// Encodes the error message that reports the error `error_type` met at
/// `error_loc`: the error protocol's id for the mode, command zero, and two
/// one-byte attributes, the location and the type.
pub fn encode_error(lcsf_mode: LcsfModeEnum, error_loc: LcsfEpLocEnum, error_type: u8) -> (buffer:
    Vec<u8>)
    ensures
        buffer@ == spec_encode_error(lcsf_mode, spec_loc_code(error_loc), error_type),
{
    let mut loc_data: Vec<u8> = Vec::new();
    loc_data.push(error_loc.code());
    let mut type_data: Vec<u8> = Vec::new();
    type_data.push(error_type);
    let mut att_arr: Vec<(u16, LcsfRawAtt)> = Vec::new();
    att_arr.push(
        (
            LCSF_EP_LOC_ATT_ID,
            LcsfRawAtt {
                has_subatt: false,
                payload_size: 1,
                payload: LcsfRawAttPayload::Data(loc_data),
            },
        ),
    );
    att_arr.push(
        (
            LCSF_EP_TYPE_ATT_ID,
            LcsfRawAtt {
                has_subatt: false,
                payload_size: 1,
                payload: LcsfRawAttPayload::Data(type_data),
            },
        ),
    );
    let error_msg = LcsfRawMsg {
        prot_id: ep_prot_id(lcsf_mode),
        cmd_id: LCSF_EP_ERR_CMD_ID,
        att_nb: LCSF_EP_ERR_CMD_ATT_NB,
        att_arr,
    };
    proof {
        let model = spec_error_msg(lcsf_mode, spec_loc_code(error_loc), error_type);
        assert(error_msg@.att_arr[0].1.payload->Data_0 =~= seq![spec_loc_code(error_loc)]);
        assert(error_msg@.att_arr[1].1.payload->Data_0 =~= seq![error_type]);
        assert(error_msg@.att_arr =~= model.att_arr);
        lemma_error_msg_bytes(lcsf_mode, spec_loc_code(error_loc), error_type);
    }
    encode_buff(lcsf_mode, &error_msg)
}

/// The first byte of the data of a validated attribute; zero where the
/// attribute holds sub-attributes.
pub open spec fn spec_first_byte(valid_att: ValidAtt) -> u8 {
    match valid_att.payload {
        ValidPayload::Data(data) => data[0],
        ValidPayload::SubattArr(_) => 0,
    }
}

/// The name of the place where an error was met.
pub open spec fn spec_loc_str(err_loc: u8) -> Seq<char> {
    if err_loc == 0 {
        "Decoder"@
    } else if err_loc == 1 {
        "Validator"@
    } else {
        "Unknown"@
    }
}

/// The name of an error, which depends on where it was met.
pub open spec fn spec_type_str(err_loc: u8, err_type: u8) -> Seq<char> {
    if err_loc == 0 {
        if err_type == 0 {
            "Bad format"@
        } else if err_type == 1 {
            "Overflow"@
        } else {
            "Unknown"@
        }
    } else if err_loc == 1 {
        if err_type == 0 {
            "Unknown protocol id"@
        } else if err_type == 1 {
            "Unknown command id"@
        } else if err_type == 2 {
            "Unknown attribute id"@
        } else if err_type == 3 {
            "Too many attributes received"@
        } else if err_type == 4 {
            "Missing mandatory attribute"@
        } else if err_type == 5 {
            "Wrong attribute data type"@
        } else {
            "Unknown"@
        }
    } else {
        "Unknown"@
    }
}

/// Whether a validated command has the two attributes of an error message,
/// each of them, if it holds data, with a first byte.
pub open spec fn spec_is_error_cmd(valid_cmd: ValidCmd) -> bool {
    &&& valid_cmd.att_arr.len() >= 2
    &&& valid_cmd.att_arr[0].payload matches ValidPayload::Data(data) ==> data.len() >= 1
    &&& valid_cmd.att_arr[1].payload matches ValidPayload::Data(data) ==> data.len() >= 1
}

/// Tells whether `process_error` can read a validated command.
pub fn is_error_cmd(valid_cmd: &LcsfValidCmd) -> (res: bool)
    ensures
        res == spec_is_error_cmd(valid_cmd@),
{
    if valid_cmd.att_arr.len() < 2 {
        return false;
    }
    let loc_ok = match &valid_cmd.att_arr[0].payload {
        LcsfValidAttPayload::Data(data) => data.len() >= 1,
        LcsfValidAttPayload::SubattArr(_) => true,
    };
    let type_ok = match &valid_cmd.att_arr[1].payload {
        LcsfValidAttPayload::Data(data) => data.len() >= 1,
        LcsfValidAttPayload::SubattArr(_) => true,
    };
    proof {
        assert(valid_cmd@.att_arr[0] == valid_cmd.att_arr@[0]@);
        assert(valid_cmd@.att_arr[1] == valid_cmd.att_arr@[1]@);
    }
    loc_ok && type_ok
}

/// Reads a received error message: the name of the place where the error was
/// met, and the name of the error.
pub fn process_error(valid_cmd: &LcsfValidCmd) -> (res: (&'static str, &'static str))
    requires
        spec_is_error_cmd(valid_cmd@),
    ensures
        res.0@ == spec_loc_str(spec_first_byte(valid_cmd@.att_arr[0])),
        res.1@ == spec_type_str(
            spec_first_byte(valid_cmd@.att_arr[0]),
            spec_first_byte(valid_cmd@.att_arr[1]),
        ),
{
    proof {
        assert(valid_cmd@.att_arr[0] == valid_cmd.att_arr@[0]@);
        assert(valid_cmd@.att_arr[1] == valid_cmd.att_arr@[1]@);
    }
    let err_loc: u8 = match &valid_cmd.att_arr[0].payload {
        LcsfValidAttPayload::Data(data) => data[0],
        LcsfValidAttPayload::SubattArr(_) => 0,
    };
    let err_type: u8 = match &valid_cmd.att_arr[1].payload {
        LcsfValidAttPayload::Data(data) => data[0],
        LcsfValidAttPayload::SubattArr(_) => 0,
    };
    match err_loc {
        0 => (
            "Decoder",
            match err_type {
                0 => "Bad format",
                1 => "Overflow",
                _ => "Unknown",
            },
        ),
        1 => (
            "Validator",
            match err_type {
                0 => "Unknown protocol id",
                1 => "Unknown command id",
                2 => "Unknown attribute id",
                3 => "Too many attributes received",
                4 => "Missing mandatory attribute",
                5 => "Wrong attribute data type",
                _ => "Unknown",
            },
        ),
        _ => ("Unknown", "Unknown"),
    }
}

// *** An error message is read as it was written ***

/// The validated command that an error message gives.
pub open spec fn spec_error_cmd(loc_code: u8, error_type: u8) -> ValidCmd {
    ValidCmd {
        cmd_id: LCSF_EP_ERR_CMD_ID,
        att_arr: seq![
            ValidAtt { payload: ValidPayload::Data(seq![loc_code]) },
            ValidAtt { payload: ValidPayload::Data(seq![error_type]) },
        ],
    }
}

/// An encoded error message decodes to the error message.
pub proof fn lemma_error_msg_decodes(mode: LcsfModeEnum, loc_code: u8, error_type: u8)
    ensures
        spec_decode_buff(mode, spec_encode_error(mode, loc_code, error_type)) == Some(
            spec_error_msg(mode, loc_code, error_type),
        ),
{
    let msg = spec_error_msg(mode, loc_code, error_type);
    lemma_error_msg_bytes(mode, loc_code, error_type);
    lemma_decode_encoded_buff(mode, msg);
}

/// An error message is valid under the descriptor of the error protocol, and
/// the validated command holds the location and the type that were encoded,
/// where `process_error` reads them.
pub proof fn lemma_error_msg_validates(
    mode: LcsfModeEnum,
    table: Map<u16, ProtDesc>,
    loc_code: u8,
    error_type: u8,
)
    requires
        table.contains_key(spec_ep_prot_id(mode)),
        table[spec_ep_prot_id(mode)] == spec_ep_prot_desc(),
    ensures
        spec_validate_msg(table, spec_error_msg(mode, loc_code, error_type)) == Ok::<
            _,
            LcsfValidateErrorEnum,
        >((spec_error_cmd(loc_code, error_type), spec_ep_prot_id(mode))),
        spec_is_error_cmd(spec_error_cmd(loc_code, error_type)),
        spec_first_byte(spec_error_cmd(loc_code, error_type).att_arr[0]) == loc_code,
        spec_first_byte(spec_error_cmd(loc_code, error_type).att_arr[1]) == error_type,
{
    let msg = spec_error_msg(mode, loc_code, error_type);
    let cmd_descs = spec_ep_prot_desc().cmd_desc_arr;
    let att_descs = cmd_descs[0].1.att_desc_arr;
    let rx_atts = msg.att_arr;
    // The command
    assert(cmd_descs.drop_last() =~= Seq::empty());
    assert(spec_find_last(cmd_descs, LCSF_EP_ERR_CMD_ID) == Some(0int));
    assert(spec_find_cmd_desc(table, msg.prot_id, msg.cmd_id) == Some(cmd_descs[0].1));
    // The location, found first in the list
    lemma_find_last(rx_atts, LCSF_EP_LOC_ATT_ID);
    assert(spec_find_last(rx_atts, LCSF_EP_LOC_ATT_ID) == Some(0int));
    let loc = spec_validate_att(LCSF_EP_LOC_ATT_ID, att_descs[0].1, rx_atts);
    assert(loc == spec_validate_found(att_descs[0].1, rx_atts[0].1));
    // The type, found last in the list
    assert(spec_find_last(rx_atts, LCSF_EP_TYPE_ATT_ID) == Some(1int));
    let kind = spec_validate_att(LCSF_EP_TYPE_ATT_ID, att_descs[1].1, rx_atts);
    assert(kind == spec_validate_found(att_descs[1].1, rx_atts[1].1));
    // Both together
    let tail = att_descs.skip(1);
    assert(tail[0] == att_descs[1]);
    assert(tail.skip(1) =~= Seq::empty());
    assert(spec_validate_atts(tail.skip(1), rx_atts) == Ok::<
        (nat, Seq<ValidAtt>),
        LcsfValidateErrorEnum,
    >((0nat, Seq::empty())));
    let last = spec_validate_atts(tail, rx_atts);
    assert(last.unwrap().1 =~= seq![ValidAtt { payload: ValidPayload::Data(seq![error_type]) }]);
    let all = spec_validate_atts(att_descs, rx_atts);
    assert(all.unwrap().1 =~= spec_error_cmd(loc_code, error_type).att_arr);
}

} // verus!
