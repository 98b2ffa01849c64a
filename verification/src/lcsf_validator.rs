//! Translate a raw message to and from a validated command, following a
//! protocol descriptor.
//!
//! A descriptor lists, for each command, the attributes that the command may
//! hold: their ids, their types, whether they are optional, and the same for
//! their sub-attributes. A validated command holds one attribute for each
//! attribute of its descriptor, in the descriptor's order; an absent optional
//! attribute is an empty one.

use crate::lcsf_transcoder::{
    copy_bytes, field_max, raw_atts_view, subatt_flag, LcsfModeEnum, LcsfRawAtt,
    LcsfRawAttPayload, LcsfRawMsg, RawAtt, RawMsg, RawPayload,
};
use crate::lcsf_validator_accept::lemma_validate_ok_iff_conforms;
use crate::lcsf_validator_proof::{lemma_fill_atts_some, lemma_validated_cmd_aligned};
use std::collections::HashMap;
use vstd::prelude::*;

verus! {

broadcast use vstd::std_specs::hash::group_hash_axioms;

/// Type of the data that an attribute carries.
#[derive(Debug, PartialEq, Eq, Structural, Copy, Clone)]
pub enum LcsfDataType {
    /// One byte.
    Uint8,
    /// Two bytes.
    Uint16,
    /// Four bytes.
    Uint32,
    /// At least one byte.
    ByteArray,
    /// At least one byte.
    String,
    /// No data of its own: a list of sub-attributes.
    Subattributes,
}

/// Schema of one attribute.
#[derive(Debug, PartialEq)]
pub struct LcsfAttDesc {
    /// Whether a command may leave the attribute out.
    pub is_optional: bool,
    /// Type of the payload.
    pub data_type: LcsfDataType,
    /// Schema of the sub-attributes, each with its id, in their order;
    /// read only where `data_type` is `Subattributes`.
    pub subatt_desc_arr: Vec<(u16, LcsfAttDesc)>,
}

/// Schema of one command: its attributes, each with its id, in their order.
#[derive(Debug, PartialEq)]
pub struct LcsfCmdDesc {
    pub att_desc_arr: Vec<(u16, LcsfAttDesc)>,
}

/// Schema of one protocol: its commands, each with its id.
#[derive(Debug, PartialEq)]
pub struct LcsfProtDesc {
    pub cmd_desc_arr: Vec<(u16, LcsfCmdDesc)>,
}

/// Payload of a validated attribute. Empty data and an empty list both stand
/// for an attribute that is absent.
#[derive(Debug, PartialEq)]
pub enum LcsfValidAttPayload {
    Data(Vec<u8>),
    SubattArr(Vec<LcsfValidAtt>),
}

/// A validated attribute. Its id is given by its position, which is that of
/// its descriptor.
#[derive(Debug, PartialEq)]
pub struct LcsfValidAtt {
    pub payload: LcsfValidAttPayload,
}

/// A validated command: one attribute for each attribute of the command's
/// descriptor, in the descriptor's order.
#[derive(Debug, PartialEq)]
pub struct LcsfValidCmd {
    pub cmd_id: u16,
    pub att_arr: Vec<LcsfValidAtt>,
}

/// Reasons for which a raw message does not follow the schema.
#[derive(Debug, PartialEq, Eq, Structural, Copy, Clone)]
pub enum LcsfValidateErrorEnum {
    /// Unknown protocol id.
    UnknownProtId,
    /// Unknown command id.
    UnknownCmdId,
    /// Unknown attribute id.
    UnknownAttId,
    /// Too many attributes received.
    TooManyAtt,
    /// Missing mandatory attribute.
    MissMandatoryAtt,
    /// Wrong attribute data type.
    WrongAttDataType,
}

/// The byte that stands for a validation error in an error message.
pub open spec fn spec_validate_error_code(err: LcsfValidateErrorEnum) -> u8 {
    match err {
        LcsfValidateErrorEnum::UnknownProtId => 0x00,
        LcsfValidateErrorEnum::UnknownCmdId => 0x01,
        LcsfValidateErrorEnum::UnknownAttId => 0x02,
        LcsfValidateErrorEnum::TooManyAtt => 0x03,
        LcsfValidateErrorEnum::MissMandatoryAtt => 0x04,
        LcsfValidateErrorEnum::WrongAttDataType => 0x05,
    }
}

impl LcsfValidateErrorEnum {
    /// The byte that stands for the error in an error message.
    pub fn code(self) -> (code: u8)
        ensures
            code == spec_validate_error_code(self),
    {
        match self {
            LcsfValidateErrorEnum::UnknownProtId => 0x00,
            LcsfValidateErrorEnum::UnknownCmdId => 0x01,
            LcsfValidateErrorEnum::UnknownAttId => 0x02,
            LcsfValidateErrorEnum::TooManyAtt => 0x03,
            LcsfValidateErrorEnum::MissMandatoryAtt => 0x04,
            LcsfValidateErrorEnum::WrongAttDataType => 0x05,
        }
    }
}

// *** Mathematical values ***

/// Mathematical value of an attribute descriptor.
pub struct AttDesc {
    pub is_optional: bool,
    pub data_type: LcsfDataType,
    pub subatt_desc_arr: Seq<(u16, AttDesc)>,
}

/// Mathematical value of a command descriptor.
pub struct CmdDesc {
    pub att_desc_arr: Seq<(u16, AttDesc)>,
}

/// Mathematical value of a protocol descriptor.
pub struct ProtDesc {
    pub cmd_desc_arr: Seq<(u16, CmdDesc)>,
}

/// Mathematical value of a validated attribute payload.
pub enum ValidPayload {
    Data(Seq<u8>),
    SubattArr(Seq<ValidAtt>),
}

/// Mathematical value of a validated attribute.
pub struct ValidAtt {
    pub payload: ValidPayload,
}

/// Mathematical value of a validated command.
pub struct ValidCmd {
    pub cmd_id: u16,
    pub att_arr: Seq<ValidAtt>,
}

/// Mathematical value of a list of attribute descriptors.
pub open spec fn att_descs_view(descs: Seq<(u16, LcsfAttDesc)>) -> Seq<(u16, AttDesc)>
    decreases descs,
{
    Seq::new(
        descs.len(),
        |i: int|
            if 0 <= i < descs.len() {
                (descs[i].0, att_desc_view(descs[i].1))
            } else {
                arbitrary()
            },
    )
}

/// Mathematical value of an attribute descriptor.
pub open spec fn att_desc_view(desc: LcsfAttDesc) -> AttDesc
    decreases desc,
{
    AttDesc {
        is_optional: desc.is_optional,
        data_type: desc.data_type,
        subatt_desc_arr: att_descs_view(desc.subatt_desc_arr@),
    }
}

/// Mathematical value of a list of validated attributes.
pub open spec fn valid_atts_view(atts: Seq<LcsfValidAtt>) -> Seq<ValidAtt>
    decreases atts,
{
    Seq::new(
        atts.len(),
        |i: int|
            if 0 <= i < atts.len() {
                valid_att_view(atts[i])
            } else {
                arbitrary()
            },
    )
}

/// Mathematical value of a validated attribute.
pub open spec fn valid_att_view(att: LcsfValidAtt) -> ValidAtt
    decreases att,
{
    ValidAtt {
        payload: match att.payload {
            LcsfValidAttPayload::Data(data) => ValidPayload::Data(data@),
            LcsfValidAttPayload::SubattArr(subatts) => ValidPayload::SubattArr(
                valid_atts_view(subatts@),
            ),
        },
    }
}

impl View for LcsfAttDesc {
    type V = AttDesc;

    open spec fn view(&self) -> AttDesc {
        att_desc_view(*self)
    }
}

impl View for LcsfCmdDesc {
    type V = CmdDesc;

    open spec fn view(&self) -> CmdDesc {
        CmdDesc { att_desc_arr: att_descs_view(self.att_desc_arr@) }
    }
}

impl View for LcsfProtDesc {
    type V = ProtDesc;

    open spec fn view(&self) -> ProtDesc {
        ProtDesc {
            cmd_desc_arr: Seq::new(
                self.cmd_desc_arr@.len(),
                |i: int| (self.cmd_desc_arr@[i].0, self.cmd_desc_arr@[i].1@),
            ),
        }
    }
}

impl View for LcsfValidAtt {
    type V = ValidAtt;

    open spec fn view(&self) -> ValidAtt {
        valid_att_view(*self)
    }
}

impl View for LcsfValidCmd {
    type V = ValidCmd;

    open spec fn view(&self) -> ValidCmd {
        ValidCmd { cmd_id: self.cmd_id, att_arr: valid_atts_view(self.att_arr@) }
    }
}

/// Mathematical value of a table of protocol descriptors.
pub open spec fn prot_table_view(table: Map<u16, LcsfProtDesc>) -> Map<u16, ProtDesc> {
    Map::new(|id: u16| table.contains_key(id), |id: u16| table[id]@)
}

// *** Sound descriptors ***

/// Whether no two entries of a list have the same id.
pub open spec fn ids_unique<T>(entries: Seq<(u16, T)>) -> bool {
    forall|i: int, j: int| 0 <= i < j < entries.len() ==> entries[i].0 != entries[j].0
}

/// Whether, in a descriptor with sub-attributes and in all that it holds, no
/// two descriptors of one level have the same id.
pub open spec fn att_desc_wf(att_desc: AttDesc) -> bool
    decreases att_desc,
{
    att_desc.data_type == LcsfDataType::Subattributes ==> att_descs_wf(att_desc.subatt_desc_arr)
}

/// Whether no two descriptors of a list have the same id, and `att_desc_wf`
/// holds of each of them.
pub open spec fn att_descs_wf(att_descs: Seq<(u16, AttDesc)>) -> bool
    decreases att_descs,
{
    &&& ids_unique(att_descs)
    &&& forall|i: int| 0 <= i < att_descs.len() ==> att_desc_wf(#[trigger] att_descs[i].1)
}

// *** Validated commands that follow their descriptor ***

/// Whether the sub-attributes of a validated attribute, and all that they
/// hold, stand at the positions of their descriptors.
pub open spec fn valid_att_aligned(att_desc: AttDesc, valid_att: ValidAtt) -> bool
    decreases att_desc, 0nat,
{
    match valid_att.payload {
        ValidPayload::Data(_) => true,
        ValidPayload::SubattArr(valid_subatts) => valid_atts_aligned(
            att_desc.subatt_desc_arr,
            valid_subatts,
        ),
    }
}

/// Whether validated attributes stand at the positions of their descriptors,
/// at this level and below: as many attributes as descriptors, each aligned
/// with the descriptor of its position.
pub open spec fn valid_atts_aligned(att_descs: Seq<(u16, AttDesc)>, valid_atts: Seq<ValidAtt>)
    -> bool
    decreases att_descs, 1nat,
{
    &&& valid_atts.len() == att_descs.len()
    &&& forall|i: int|
        0 <= i < att_descs.len() ==> valid_att_aligned(
            (#[trigger] att_descs[i]).1,
            valid_atts[i],
        )
}

/// Whether no mandatory attribute is empty, among validated attributes and
/// all that they hold.
pub open spec fn valid_atts_complete(att_descs: Seq<(u16, AttDesc)>, valid_atts: Seq<ValidAtt>)
    -> bool
    decreases att_descs,
{
    &&& valid_atts.len() == att_descs.len()
    &&& forall|i: int|
        0 <= i < att_descs.len() ==> {
            &&& !(#[trigger] att_descs[i]).1.is_optional ==> !valid_att_is_empty(valid_atts[i])
            &&& valid_atts[i].payload matches ValidPayload::SubattArr(valid_subatts)
                ==> valid_atts_complete(att_descs[i].1.subatt_desc_arr, valid_subatts)
        }
}

// *** Lookup by id ***

/// Index of the last entry of `entries` whose id is `id`, if there is one.
pub open spec fn spec_find_last<T>(entries: Seq<(u16, T)>, id: u16) -> Option<int>
    decreases entries.len(),
{
    if entries.len() == 0 {
        None
    } else if entries.last().0 == id {
        Some(entries.len() - 1)
    } else {
        spec_find_last(entries.drop_last(), id)
    }
}

/// What `spec_find_last` finds: an entry with that id that no entry with that
/// id follows.
pub proof fn lemma_find_last<T>(entries: Seq<(u16, T)>, id: u16)
    ensures
        match spec_find_last(entries, id) {
            Some(idx) => 0 <= idx < entries.len() && entries[idx].0 == id && forall|j: int|
                idx < j < entries.len() ==> entries[j].0 != id,
            None => forall|j: int| 0 <= j < entries.len() ==> entries[j].0 != id,
        },
    decreases entries.len(),
{
    if entries.len() > 0 && entries.last().0 != id {
        let front = entries.drop_last();
        lemma_find_last(front, id);
        assert(forall|j: int| 0 <= j < front.len() ==> front[j] == entries[j]);
    }
}

/// Lists that hold the same ids in the same order give the same index.
pub proof fn lemma_find_last_same_ids<A, B>(left: Seq<(u16, A)>, right: Seq<(u16, B)>, id: u16)
    requires
        left.len() == right.len(),
        forall|i: int| 0 <= i < left.len() ==> left[i].0 == right[i].0,
    ensures
        spec_find_last(left, id) == spec_find_last(right, id),
    decreases left.len(),
{
    if left.len() > 0 {
        lemma_find_last_same_ids(left.drop_last(), right.drop_last(), id);
    }
}

/// Finds the last entry with the given id, and gives its index.
pub fn find_last<T>(entries: &[(u16, T)], id: u16) -> (res: Option<usize>)
    ensures
        match res {
            Some(idx) => idx < entries.len() && spec_find_last(entries@, id) == Some(idx as int),
            None => spec_find_last(entries@, id) is None,
        },
{
    let mut idx: usize = entries.len();
    while idx > 0
        invariant
            idx <= entries.len(),
            forall|j: int| idx <= j < entries.len() ==> entries@[j].0 != id,
        decreases idx,
    {
        idx -= 1;
        if entries[idx].0 == id {
            proof {
                lemma_find_last(entries@, id);
            }
            return Some(idx);
        }
    }
    proof {
        lemma_find_last(entries@, id);
    }
    None
}

// *** Validate raw ***

/// Whether a payload of `data_size` bytes can hold a value of `data_type`.
pub open spec fn spec_validate_data_type(data_size: nat, data_type: LcsfDataType) -> bool {
    match data_type {
        LcsfDataType::Uint8 => data_size == 1,
        LcsfDataType::Uint16 => data_size == 2,
        LcsfDataType::Uint32 => data_size == 4,
        LcsfDataType::ByteArray => data_size > 0,
        LcsfDataType::String => data_size > 0,
        LcsfDataType::Subattributes => false,
    }
}

/// The placeholder that stands for an attribute that is absent.
pub open spec fn absent_valid_att() -> ValidAtt {
    ValidAtt { payload: ValidPayload::Data(Seq::empty()) }
}

/// What validation makes of a received attribute under the descriptor of its
/// id: the validated attribute with its size, or the first error met.
///
/// The size is the number of bytes of a leaf and the number of
/// sub-descriptors of a node. A received attribute whose payload is not of
/// the kind that its flag announces gives the placeholder of an absent one.
pub open spec fn spec_validate_found(att_desc: AttDesc, rx_att: RawAtt) -> Result<
    (nat, ValidAtt),
    LcsfValidateErrorEnum,
>
    decreases att_desc, 0nat,
{
    if att_desc.data_type == LcsfDataType::Subattributes {
        if !rx_att.has_subatt {
            Err(LcsfValidateErrorEnum::WrongAttDataType)
        } else {
            match rx_att.payload {
                RawPayload::Data(_) => Ok((0, absent_valid_att())),
                RawPayload::SubattArr(rx_subatts) => if rx_subatts.len()
                    > att_desc.subatt_desc_arr.len() {
                    Err(LcsfValidateErrorEnum::TooManyAtt)
                } else {
                    match spec_validate_atts(att_desc.subatt_desc_arr, rx_subatts) {
                        Err(err) => Err(err),
                        Ok((present, valid_subatts)) => if present < rx_subatts.len() {
                            Err(LcsfValidateErrorEnum::UnknownAttId)
                        } else {
                            Ok(
                                (
                                    valid_subatts.len(),
                                    ValidAtt { payload: ValidPayload::SubattArr(valid_subatts) },
                                ),
                            )
                        },
                    }
                },
            }
        }
    } else if !spec_validate_data_type(rx_att.payload_size as nat, att_desc.data_type) {
        Err(LcsfValidateErrorEnum::WrongAttDataType)
    } else {
        match rx_att.payload {
            RawPayload::Data(data) => Ok(
                (data.len(), ValidAtt { payload: ValidPayload::Data(data) }),
            ),
            RawPayload::SubattArr(_) => Ok((0, absent_valid_att())),
        }
    }
}

/// What validation makes of the attribute that `att_desc` describes under the
/// id `att_id`, among the received attributes `rx_atts` of one level.
///
/// The attribute looked at is the last received one with that id. Where there
/// is none, an optional attribute gives a placeholder of size zero, and a
/// mandatory one gives `MissMandatoryAtt`.
pub open spec fn spec_validate_att(att_id: u16, att_desc: AttDesc, rx_atts: Seq<(u16, RawAtt)>)
    -> Result<(nat, ValidAtt), LcsfValidateErrorEnum>
    decreases att_desc, 1nat,
{
    match spec_find_last(rx_atts, att_id) {
        None => if att_desc.is_optional {
            Ok((0, absent_valid_att()))
        } else {
            Err(LcsfValidateErrorEnum::MissMandatoryAtt)
        },
        Some(idx) => spec_validate_found(att_desc, rx_atts[idx].1),
    }
}

/// What validation makes of the received attributes `rx_atts` of one level
/// under the descriptors `att_descs`, taken in the descriptors' order: one
/// validated attribute for each descriptor, and the number of them whose size
/// is not zero; or the error of the first descriptor that fails.
pub open spec fn spec_validate_atts(att_descs: Seq<(u16, AttDesc)>, rx_atts: Seq<(u16, RawAtt)>)
    -> Result<(nat, Seq<ValidAtt>), LcsfValidateErrorEnum>
    decreases att_descs, 2nat,
{
    if att_descs.len() == 0 {
        Ok((0, Seq::empty()))
    } else {
        match spec_validate_att(att_descs[0].0, att_descs[0].1, rx_atts) {
            Err(err) => Err(err),
            Ok((size, valid_att)) => match spec_validate_atts(att_descs.skip(1), rx_atts) {
                Err(err) => Err(err),
                Ok((present, valid_atts)) => Ok(
                    (
                        if size > 0 {
                            present + 1
                        } else {
                            present
                        },
                        seq![valid_att] + valid_atts,
                    ),
                ),
            },
        }
    }
}

/// The command descriptor that a table of protocols holds for a protocol id
/// and a command id: of several commands with that id, the last.
pub open spec fn spec_find_cmd_desc(table: Map<u16, ProtDesc>, prot_id: u16, cmd_id: u16) -> Option<
    CmdDesc,
> {
    if !table.contains_key(prot_id) {
        None
    } else {
        match spec_find_last(table[prot_id].cmd_desc_arr, cmd_id) {
            None => None,
            Some(idx) => Some(table[prot_id].cmd_desc_arr[idx].1),
        }
    }
}

/// What validation makes of a raw message under a table of protocols: the
/// validated command with the protocol id, or the first error met.
pub open spec fn spec_validate_msg(table: Map<u16, ProtDesc>, rx_msg: RawMsg) -> Result<
    (ValidCmd, u16),
    LcsfValidateErrorEnum,
> {
    if !table.contains_key(rx_msg.prot_id) {
        Err(LcsfValidateErrorEnum::UnknownProtId)
    } else {
        match spec_find_cmd_desc(table, rx_msg.prot_id, rx_msg.cmd_id) {
            None => Err(LcsfValidateErrorEnum::UnknownCmdId),
            Some(cmd_desc) => if rx_msg.att_arr.len() > cmd_desc.att_desc_arr.len() {
                Err(LcsfValidateErrorEnum::TooManyAtt)
            } else {
                match spec_validate_atts(cmd_desc.att_desc_arr, rx_msg.att_arr) {
                    Err(err) => Err(err),
                    Ok((present, valid_atts)) => if present < rx_msg.att_arr.len() {
                        Err(LcsfValidateErrorEnum::UnknownAttId)
                    } else {
                        Ok(
                            (
                                ValidCmd { cmd_id: rx_msg.cmd_id, att_arr: valid_atts },
                                rx_msg.prot_id,
                            ),
                        )
                    },
                }
            },
        }
    }
}

/// Whether a received attribute suits the descriptor of its id.
///
/// Under a descriptor with sub-attributes: the attribute is flagged as
/// holding sub-attributes, holds a list, and the list suits the
/// sub-descriptors, of which there is at least one. Under a descriptor with
/// data: its payload size suits the type, and it holds at least one byte.
pub open spec fn raw_att_conforms(att_desc: AttDesc, rx_att: RawAtt) -> bool
    decreases att_desc, 0nat,
{
    if att_desc.data_type == LcsfDataType::Subattributes {
        &&& rx_att.has_subatt
        &&& att_desc.subatt_desc_arr.len() > 0
        &&& rx_att.payload matches RawPayload::SubattArr(rx_subatts) && raw_atts_conform(
            att_desc.subatt_desc_arr,
            rx_subatts,
        )
    } else {
        &&& spec_validate_data_type(rx_att.payload_size as nat, att_desc.data_type)
        &&& rx_att.payload matches RawPayload::Data(data) && data.len() > 0
    }
}

/// Whether the received attributes of one level suit the descriptors of that
/// level: no two of them have the same id, each has the id of a descriptor,
/// each descriptor without an attribute is optional, and each attribute suits
/// the descriptor of its id.
pub open spec fn raw_atts_conform(att_descs: Seq<(u16, AttDesc)>, rx_atts: Seq<(u16, RawAtt)>)
    -> bool
    decreases att_descs, 1nat,
{
    &&& ids_unique(rx_atts)
    &&& forall|j: int|
        0 <= j < rx_atts.len() ==> spec_find_last(att_descs, (#[trigger] rx_atts[j]).0) is Some
    &&& forall|k: int|
        0 <= k < att_descs.len() ==> match spec_find_last(rx_atts, (#[trigger] att_descs[k]).0) {
            None => att_descs[k].1.is_optional,
            Some(pos) => raw_att_conforms(att_descs[k].1, rx_atts[pos].1),
        }
}

/// Tells whether a payload of `data_size` bytes can hold a value of
/// `data_type`: one, two or four bytes for the integers, at least one for a
/// byte array or a string, never for sub-attributes.
pub fn validate_data_type(data_size: usize, data_type: LcsfDataType) -> (res: bool)
    ensures
        res == spec_validate_data_type(data_size as nat, data_type),
{
    match data_type {
        LcsfDataType::Uint8 => data_size == 1,
        LcsfDataType::Uint16 => data_size == 2,
        LcsfDataType::Uint32 => data_size == 4,
        LcsfDataType::ByteArray => data_size > 0,
        LcsfDataType::String => data_size > 0,
        LcsfDataType::Subattributes => false,
    }
}

/// Validates the received attributes of one level against the descriptors of
/// that level, in the descriptors' order.
fn validate_att_arr(
    att_desc_arr: &Vec<(u16, LcsfAttDesc)>,
    rx_att_arr: &[(u16, LcsfRawAtt)],
) -> (res: Result<(usize, Vec<LcsfValidAtt>), LcsfValidateErrorEnum>)
    ensures
        match spec_validate_atts(att_descs_view(att_desc_arr@), raw_atts_view(rx_att_arr@)) {
            Ok((present, valid_atts)) => res is Ok && res.unwrap().0 == present && valid_atts_view(
                res.unwrap().1@,
            ) == valid_atts && valid_atts.len() == att_desc_arr.len(),
            Err(err) => res == Err::<(usize, Vec<LcsfValidAtt>), _>(err),
        },
    decreases att_desc_arr,
{
    let ghost descs = att_descs_view(att_desc_arr@);
    let ghost rx_atts = raw_atts_view(rx_att_arr@);
    let mut valid_att_arr: Vec<LcsfValidAtt> = Vec::new();
    let mut att_count: usize = 0;
    let mut idx: usize = 0;
    proof {
        assert(descs.skip(0) =~= descs);
        assert(valid_atts_view(valid_att_arr@) =~= Seq::empty());
        assert(forall|rest: Seq<ValidAtt>| #[trigger] (Seq::<ValidAtt>::empty() + rest) =~= rest);
    }
    while idx < att_desc_arr.len()
        invariant
            idx <= att_desc_arr.len(),
            att_count <= idx,
            valid_att_arr.len() == idx,
            descs == att_descs_view(att_desc_arr@),
            rx_atts == raw_atts_view(rx_att_arr@),
            spec_validate_atts(descs, rx_atts) == match spec_validate_atts(
                descs.skip(idx as int),
                rx_atts,
            ) {
                Ok((present, rest)) => Ok(
                    ((att_count + present) as nat, valid_atts_view(valid_att_arr@) + rest),
                ),
                Err(err) => Err(err),
            },
        decreases att_desc_arr.len() - idx,
    {
        let ghost done = valid_atts_view(valid_att_arr@);
        proof {
            assert(decreases_to!(att_desc_arr@ => att_desc_arr@[idx as int]));
            assert(descs.skip(idx as int).skip(1) =~= descs.skip(idx + 1));
        }
        match validate_att_rec(att_desc_arr[idx].0, &att_desc_arr[idx].1, rx_att_arr) {
            Err(err) => {
                return Err(err);
            },
            Ok((att_size, valid_att)) => {
                proof {
                    assert(valid_atts_view(valid_att_arr@.push(valid_att)) =~= done + seq![
                        valid_att@,
                    ]);
                    assert(forall|rest: Seq<ValidAtt>| #[trigger]
                        (done + (seq![valid_att@] + rest)) =~= (done + seq![valid_att@]) + rest);
                }
                valid_att_arr.push(valid_att);
                if att_size > 0 {
                    att_count += 1;
                }
                idx += 1;
            },
        }
    }
    proof {
        assert(valid_atts_view(valid_att_arr@) + Seq::<ValidAtt>::empty() =~= valid_atts_view(
            valid_att_arr@,
        ));
    }
    Ok((att_count, valid_att_arr))
}

/// Validates the attribute that `att_desc` describes under the id `att_id`,
/// among the received attributes of one level.
///
/// Absent and optional: an empty placeholder of size zero. Absent and
/// mandatory: `MissMandatoryAtt`. Present, and described with
/// sub-attributes: `WrongAttDataType` unless it is flagged as having
/// sub-attributes; `TooManyAtt` where it holds more of them than the
/// descriptor; then its sub-attributes are validated in the descriptor's
/// order, and `UnknownAttId` comes where fewer of them are found than were
/// received. Present, and described with data: `WrongAttDataType` unless its
/// payload size suits the type; the bytes are copied as they are.
pub fn validate_att_rec(
    att_id: u16,
    att_desc: &LcsfAttDesc,
    rx_att_arr: &[(u16, LcsfRawAtt)],
) -> (res: Result<(usize, LcsfValidAtt), LcsfValidateErrorEnum>)
    ensures
        match spec_validate_att(att_id, att_desc@, raw_atts_view(rx_att_arr@)) {
            Ok((size, valid_att)) => res is Ok && res.unwrap().0 == size && res.unwrap().1@
                == valid_att,
            Err(err) => res == Err::<(usize, LcsfValidAtt), _>(err),
        },
    decreases att_desc,
{
    proof {
        lemma_find_last_same_ids(raw_atts_view(rx_att_arr@), rx_att_arr@, att_id);
    }
    let rx_att = match find_last(rx_att_arr, att_id) {
        None => {
            if !att_desc.is_optional {
                return Err(LcsfValidateErrorEnum::MissMandatoryAtt);
            } else {
                return Ok((0, LcsfValidAtt { payload: LcsfValidAttPayload::Data(Vec::new()) }));
            }
        },
        Some(idx) => {
            assert(raw_atts_view(rx_att_arr@)[idx as int].1 == rx_att_arr@[idx as int].1@);
            &rx_att_arr[idx].1
        },
    };
    match att_desc.data_type {
        LcsfDataType::Subattributes => {
            if !rx_att.has_subatt {
                return Err(LcsfValidateErrorEnum::WrongAttDataType);
            }
            match &rx_att.payload {
                LcsfRawAttPayload::Data(_) => Ok(
                    (0, LcsfValidAtt { payload: LcsfValidAttPayload::Data(Vec::new()) }),
                ),
                LcsfRawAttPayload::SubattArr(rx_subatt_arr) => {
                    if rx_subatt_arr.len() > att_desc.subatt_desc_arr.len() {
                        return Err(LcsfValidateErrorEnum::TooManyAtt);
                    }
                    let (subatt_count, valid_subatt_arr) = match validate_att_arr(
                        &att_desc.subatt_desc_arr,
                        rx_subatt_arr.as_slice(),
                    ) {
                        Err(err) => {
                            return Err(err);
                        },
                        Ok(found) => found,
                    };
                    if subatt_count < rx_subatt_arr.len() {
                        return Err(LcsfValidateErrorEnum::UnknownAttId);
                    }
                    Ok(
                        (
                            valid_subatt_arr.len(),
                            LcsfValidAtt {
                                payload: LcsfValidAttPayload::SubattArr(valid_subatt_arr),
                            },
                        ),
                    )
                },
            }
        },
        _ => {
            if !validate_data_type(rx_att.payload_size as usize, att_desc.data_type) {
                return Err(LcsfValidateErrorEnum::WrongAttDataType);
            }
            match &rx_att.payload {
                LcsfRawAttPayload::Data(rx_data) => Ok(
                    (
                        rx_data.len(),
                        LcsfValidAtt { payload: LcsfValidAttPayload::Data(copy_bytes(rx_data)) },
                    ),
                ),
                LcsfRawAttPayload::SubattArr(_) => Ok(
                    (0, LcsfValidAtt { payload: LcsfValidAttPayload::Data(Vec::new()) }),
                ),
            }
        },
    }
}

/// Validates a received raw message against the table of known protocols.
///
/// `UnknownProtId` where the table has no descriptor for the protocol id;
/// `UnknownCmdId` where that descriptor has no command with the command id
/// (of several with that id, the last counts); `TooManyAtt` where the message
/// holds more attributes than the command's descriptor; then the attributes
/// are validated in the descriptor's order, and `UnknownAttId` comes where
/// fewer of them are found than were received. On success the validated
/// command comes with the protocol id of the message.
pub fn validate_msg(prot_desc_map: &HashMap<u16, LcsfProtDesc>, rx_msg: &LcsfRawMsg) -> (res:
    Result<(LcsfValidCmd, u16), LcsfValidateErrorEnum>)
    ensures
        match spec_validate_msg(prot_table_view(prot_desc_map@), rx_msg@) {
            Ok((valid_cmd, prot_id)) => res is Ok && res.unwrap().0@ == valid_cmd
                && res.unwrap().1 == prot_id,
            Err(err) => res == Err::<(LcsfValidCmd, u16), _>(err),
        },
        res is Ok ==> (spec_find_cmd_desc(
            prot_table_view(prot_desc_map@),
            rx_msg.prot_id,
            rx_msg.cmd_id,
        ) matches Some(cmd_desc) && valid_atts_aligned(
            cmd_desc.att_desc_arr,
            res.unwrap().0@.att_arr,
        )),
        match spec_find_cmd_desc(prot_table_view(prot_desc_map@), rx_msg.prot_id, rx_msg.cmd_id) {
            None => res is Err,
            Some(cmd_desc) => att_descs_wf(cmd_desc.att_desc_arr) ==> (res is Ok
                <==> raw_atts_conform(cmd_desc.att_desc_arr, rx_msg@.att_arr)),
        },
{
    proof {
        let table = prot_table_view(prot_desc_map@);
        if spec_validate_msg(table, rx_msg@) is Ok {
            lemma_validated_cmd_aligned(table, rx_msg@);
        }
        if let Some(cmd_desc) = spec_find_cmd_desc(table, rx_msg.prot_id, rx_msg.cmd_id) {
            if att_descs_wf(cmd_desc.att_desc_arr) {
                lemma_validate_ok_iff_conforms(table, rx_msg@);
            }
        }
    }
    let prot_desc = match prot_desc_map.get(&rx_msg.prot_id) {
        None => {
            return Err(LcsfValidateErrorEnum::UnknownProtId);
        },
        Some(desc) => desc,
    };
    proof {
        lemma_find_last_same_ids(prot_desc@.cmd_desc_arr, prot_desc.cmd_desc_arr@, rx_msg.cmd_id);
    }
    let cmd_desc = match find_last(prot_desc.cmd_desc_arr.as_slice(), rx_msg.cmd_id) {
        None => {
            return Err(LcsfValidateErrorEnum::UnknownCmdId);
        },
        Some(idx) => &prot_desc.cmd_desc_arr[idx].1,
    };
    if rx_msg.att_arr.len() > cmd_desc.att_desc_arr.len() {
        return Err(LcsfValidateErrorEnum::TooManyAtt);
    }
    let (att_count, valid_att_arr) = match validate_att_arr(
        &cmd_desc.att_desc_arr,
        rx_msg.att_arr.as_slice(),
    ) {
        Err(err) => {
            return Err(err);
        },
        Ok(found) => found,
    };
    if att_count < rx_msg.att_arr.len() {
        return Err(LcsfValidateErrorEnum::UnknownAttId);
    }
    Ok((LcsfValidCmd { cmd_id: rx_msg.cmd_id, att_arr: valid_att_arr }, rx_msg.prot_id))
}

// *** Encode valid ***

/// Whether a validated attribute stands for an absent one: no data, or no
/// sub-attribute.
pub open spec fn valid_att_is_empty(valid_att: ValidAtt) -> bool {
    match valid_att.payload {
        ValidPayload::Data(data) => data.len() == 0,
        ValidPayload::SubattArr(subatts) => subatts.len() == 0,
    }
}

/// Number of the validated attributes of a list that are not empty.
pub open spec fn spec_cnt_non_empty_att(valid_atts: Seq<ValidAtt>) -> nat
    decreases valid_atts.len(),
{
    if valid_atts.len() == 0 {
        0
    } else if valid_att_is_empty(valid_atts[0]) {
        spec_cnt_non_empty_att(valid_atts.skip(1))
    } else {
        1 + spec_cnt_non_empty_att(valid_atts.skip(1))
    }
}

/// The raw attribute that stands for an absent one; the transcoder skips it.
pub open spec fn absent_raw_att() -> RawAtt {
    RawAtt { has_subatt: false, payload_size: 0, payload: RawPayload::Data(Seq::empty()) }
}

/// The raw attribute, without its sub-attributes, that a validated attribute
/// of type `data_type` gives.
///
/// For sub-attributes: the flag, and as payload size the number of
/// sub-attributes that are not empty; nothing where the list is empty or that
/// number does not fit the size field. For data: the bytes and their number;
/// nothing where that number does not suit the type or does not fit the size
/// field. Where the payload is not of the kind that the type asks for: the
/// placeholder of an absent attribute.
pub open spec fn spec_fill_att_info(data_type: LcsfDataType, valid_att: ValidAtt) -> Option<
    RawAtt,
> {
    if data_type == LcsfDataType::Subattributes {
        match valid_att.payload {
            ValidPayload::Data(_) => Some(absent_raw_att()),
            ValidPayload::SubattArr(subatts) => if subatts.len() == 0 || spec_cnt_non_empty_att(
                subatts,
            ) > u16::MAX {
                None
            } else {
                Some(
                    RawAtt {
                        has_subatt: true,
                        payload_size: spec_cnt_non_empty_att(subatts) as u16,
                        payload: RawPayload::SubattArr(Seq::empty()),
                    },
                )
            },
        }
    } else {
        match valid_att.payload {
            ValidPayload::SubattArr(_) => Some(absent_raw_att()),
            ValidPayload::Data(data) => if !spec_validate_data_type(data.len(), data_type)
                || data.len() > u16::MAX {
                None
            } else {
                Some(
                    RawAtt {
                        has_subatt: false,
                        payload_size: data.len() as u16,
                        payload: RawPayload::Data(data),
                    },
                )
            },
        }
    }
}

/// The raw attribute that a validated attribute gives under its descriptor,
/// sub-attributes included.
///
/// An empty attribute gives the placeholder of an absent one where the
/// descriptor makes it optional, and nothing where it is mandatory. A list of
/// sub-attributes must be as long as the descriptor's, and each of them must
/// give a raw attribute in turn. Where the payload is not of the kind that
/// the descriptor asks for, the result is the placeholder.
pub open spec fn spec_fill_att_rec(att_desc: AttDesc, valid_att: ValidAtt) -> Option<RawAtt>
    decreases att_desc,
{
    if att_desc.data_type == LcsfDataType::Subattributes {
        match valid_att.payload {
            ValidPayload::Data(_) => Some(absent_raw_att()),
            ValidPayload::SubattArr(valid_subatts) => if valid_subatts.len() == 0 {
                if att_desc.is_optional {
                    Some(absent_raw_att())
                } else {
                    None
                }
            } else if valid_subatts.len() != att_desc.subatt_desc_arr.len() {
                None
            } else {
                match (
                    spec_fill_att_info(att_desc.data_type, valid_att),
                    spec_fill_atts(att_desc.subatt_desc_arr, valid_subatts),
                ) {
                    (Some(head), Some(raw_subatts)) => Some(
                        RawAtt {
                            has_subatt: head.has_subatt,
                            payload_size: head.payload_size,
                            payload: RawPayload::SubattArr(raw_subatts),
                        },
                    ),
                    _ => None,
                }
            },
        }
    } else {
        match valid_att.payload {
            ValidPayload::SubattArr(_) => Some(absent_raw_att()),
            ValidPayload::Data(data) => if data.len() == 0 {
                if att_desc.is_optional {
                    Some(absent_raw_att())
                } else {
                    None
                }
            } else {
                spec_fill_att_info(att_desc.data_type, valid_att)
            },
        }
    }
}

/// The raw attributes that a list of validated attributes gives under the
/// descriptors of the same positions, each with its descriptor's id; nothing
/// where the lists differ in length or one attribute gives nothing.
pub open spec fn spec_fill_atts(att_descs: Seq<(u16, AttDesc)>, valid_atts: Seq<ValidAtt>)
    -> Option<Seq<(u16, RawAtt)>>
    decreases att_descs,
{
    if att_descs.len() != valid_atts.len() {
        None
    } else if att_descs.len() == 0 {
        Some(Seq::empty())
    } else {
        match (
            spec_fill_att_rec(att_descs[0].1, valid_atts[0]),
            spec_fill_atts(att_descs.skip(1), valid_atts.skip(1)),
        ) {
            (Some(raw_att), Some(rest)) => Some(seq![(att_descs[0].0, raw_att)] + rest),
            _ => None,
        }
    }
}

/// The raw message that a validated command gives under its descriptor.
///
/// The attribute number is the number of attributes that are not empty; the
/// list of attributes holds one entry for each descriptor, a placeholder for
/// each absent attribute. Nothing where the command does not have as many
/// attributes as the descriptor, where the attribute number does not fit its
/// field, or where one attribute gives nothing.
pub open spec fn spec_encode_valid(prot_id: u16, cmd_desc: CmdDesc, valid_cmd: ValidCmd) -> Option<
    RawMsg,
> {
    if valid_cmd.att_arr.len() != cmd_desc.att_desc_arr.len() || spec_cnt_non_empty_att(
        valid_cmd.att_arr,
    ) > u16::MAX {
        None
    } else {
        match spec_fill_atts(cmd_desc.att_desc_arr, valid_cmd.att_arr) {
            None => None,
            Some(raw_atts) => Some(
                RawMsg {
                    prot_id,
                    cmd_id: valid_cmd.cmd_id,
                    att_nb: spec_cnt_non_empty_att(valid_cmd.att_arr) as u16,
                    att_arr: raw_atts,
                },
            ),
        }
    }
}

/// Whether a validated attribute can be written under its descriptor.
///
/// An empty attribute must be optional. Data that is not empty must suit the
/// type of the descriptor; sub-attributes must be as many as the descriptor
/// has, and each of them must be writable in turn. Both must fit the size
/// field: at most 65535 bytes, at most 65535 sub-attributes that are not
/// empty. An attribute whose payload is not of the kind that the descriptor
/// asks for is written as an absent one.
pub open spec fn valid_att_fillable(att_desc: AttDesc, valid_att: ValidAtt) -> bool
    decreases att_desc, 0nat,
{
    if att_desc.data_type == LcsfDataType::Subattributes {
        match valid_att.payload {
            ValidPayload::Data(_) => true,
            ValidPayload::SubattArr(valid_subatts) => if valid_subatts.len() == 0 {
                att_desc.is_optional
            } else {
                &&& spec_cnt_non_empty_att(valid_subatts) <= u16::MAX
                &&& valid_atts_fillable(att_desc.subatt_desc_arr, valid_subatts)
            },
        }
    } else {
        match valid_att.payload {
            ValidPayload::SubattArr(_) => true,
            ValidPayload::Data(data) => if data.len() == 0 {
                att_desc.is_optional
            } else {
                &&& spec_validate_data_type(data.len(), att_desc.data_type)
                &&& data.len() <= u16::MAX
            },
        }
    }
}

/// Whether validated attributes can be written under the descriptors of their
/// positions: as many attributes as descriptors, each writable under its own.
pub open spec fn valid_atts_fillable(att_descs: Seq<(u16, AttDesc)>, valid_atts: Seq<ValidAtt>)
    -> bool
    decreases att_descs, 1nat,
{
    &&& valid_atts.len() == att_descs.len()
    &&& forall|i: int|
        0 <= i < att_descs.len() ==> valid_att_fillable(
            (#[trigger] att_descs[i]).1,
            valid_atts[i],
        )
}

/// Whether a validated command can be turned into a raw message under its
/// descriptor: its attributes can be written, and those that are not empty
/// are at most 65535.
pub open spec fn valid_cmd_fillable(cmd_desc: CmdDesc, valid_cmd: ValidCmd) -> bool {
    &&& valid_atts_fillable(cmd_desc.att_desc_arr, valid_cmd.att_arr)
    &&& spec_cnt_non_empty_att(valid_cmd.att_arr) <= u16::MAX
}

/// Whether a validated attribute is one that validation can give under its
/// descriptor.
///
/// An absent attribute is empty data, under an optional descriptor. Data that
/// is not empty stands under a descriptor with data, suits its type and fits
/// the size field. Sub-attributes stand under a descriptor with
/// sub-attributes, are such attributes in turn under the sub-descriptors of
/// their positions, and at least one of them, at most 65535, are not empty.
pub open spec fn valid_att_canonical(att_desc: AttDesc, valid_att: ValidAtt) -> bool
    decreases att_desc, 0nat,
{
    match valid_att.payload {
        ValidPayload::Data(data) => if data.len() == 0 {
            att_desc.is_optional
        } else {
            &&& att_desc.data_type != LcsfDataType::Subattributes
            &&& spec_validate_data_type(data.len(), att_desc.data_type)
            &&& data.len() <= u16::MAX
        },
        ValidPayload::SubattArr(valid_subatts) => {
            &&& att_desc.data_type == LcsfDataType::Subattributes
            &&& 0 < spec_cnt_non_empty_att(valid_subatts) <= u16::MAX
            &&& valid_atts_canonical(att_desc.subatt_desc_arr, valid_subatts)
        },
    }
}

/// Whether validated attributes are such as validation can give under the
/// descriptors of their positions.
pub open spec fn valid_atts_canonical(att_descs: Seq<(u16, AttDesc)>, valid_atts: Seq<ValidAtt>)
    -> bool
    decreases att_descs, 1nat,
{
    &&& valid_atts.len() == att_descs.len()
    &&& forall|i: int|
        0 <= i < att_descs.len() ==> valid_att_canonical(
            (#[trigger] att_descs[i]).1,
            valid_atts[i],
        )
}

/// Whether the ids of descriptors fit the id field of a mode, below the flag,
/// at this level and below.
pub open spec fn att_descs_fit(mode: LcsfModeEnum, att_descs: Seq<(u16, AttDesc)>) -> bool
    decreases att_descs,
{
    forall|i: int|
        0 <= i < att_descs.len() ==> {
            &&& (#[trigger] att_descs[i]).0 < subatt_flag(mode)
            &&& att_descs[i].1.data_type == LcsfDataType::Subattributes ==> att_descs_fit(
                mode,
                att_descs[i].1.subatt_desc_arr,
            )
        }
}

/// Whether the sizes of validated attributes fit the size field of a mode, at
/// this level and below: the number of bytes of data, and the number of
/// sub-attributes that are not empty.
pub open spec fn valid_atts_fit(mode: LcsfModeEnum, valid_atts: Seq<ValidAtt>) -> bool
    decreases valid_atts,
{
    forall|i: int|
        0 <= i < valid_atts.len() ==> match (#[trigger] valid_atts[i]).payload {
            ValidPayload::Data(data) => data.len() <= field_max(mode),
            ValidPayload::SubattArr(valid_subatts) => spec_cnt_non_empty_att(valid_subatts)
                <= field_max(mode) && valid_atts_fit(mode, valid_subatts),
        }
}

/// Counts the attributes of a list that are not empty.
pub fn cnt_non_empty_att(att_arr: &[LcsfValidAtt]) -> (cnt: usize)
    ensures
        cnt == spec_cnt_non_empty_att(valid_atts_view(att_arr@)),
{
    let ghost valid_atts = valid_atts_view(att_arr@);
    let mut cnt: usize = 0;
    let mut idx: usize = 0;
    proof {
        assert(valid_atts.skip(0) =~= valid_atts);
    }
    while idx < att_arr.len()
        invariant
            idx <= att_arr.len(),
            cnt <= idx,
            valid_atts == valid_atts_view(att_arr@),
            cnt + spec_cnt_non_empty_att(valid_atts.skip(idx as int)) == spec_cnt_non_empty_att(
                valid_atts,
            ),
        decreases att_arr.len() - idx,
    {
        proof {
            assert(valid_atts.skip(idx as int).skip(1) =~= valid_atts.skip(idx + 1));
        }
        let is_empty = match &att_arr[idx].payload {
            LcsfValidAttPayload::SubattArr(subatt_arr) => subatt_arr.len() == 0,
            LcsfValidAttPayload::Data(data) => data.len() == 0,
        };
        proof {
            assert(valid_atts.skip(idx as int)[0] == att_arr@[idx as int]@);
            assert(is_empty == valid_att_is_empty(att_arr@[idx as int]@));
        }
        if !is_empty {
            cnt += 1;
        }
        idx += 1;
    }
    cnt
}

/// Fills the flag, the payload size and the data of a raw attribute from a
/// validated attribute of type `data_type`; the sub-attributes of a node are
/// left for the caller to fill.
pub fn fill_att_info(data_type: LcsfDataType, valid_att: &LcsfValidAtt) -> (res: Option<LcsfRawAtt>)
    ensures
        match spec_fill_att_info(data_type, valid_att@) {
            Some(raw_att) => res is Some && res.unwrap()@ == raw_att,
            None => res is None,
        },
{
    match data_type {
        LcsfDataType::Subattributes => {
            match &valid_att.payload {
                LcsfValidAttPayload::Data(_) => Some(empty_raw_att()),
                LcsfValidAttPayload::SubattArr(subatt_arr) => {
                    if subatt_arr.len() == 0 {
                        return None;
                    }
                    let cnt: usize = cnt_non_empty_att(subatt_arr.as_slice());
                    if cnt > 0xffff {
                        return None;
                    }
                    let raw_att = LcsfRawAtt {
                        has_subatt: true,
                        payload_size: cnt as u16,
                        payload: LcsfRawAttPayload::SubattArr(Vec::new()),
                    };
                    assert(raw_att@.payload->SubattArr_0 =~= Seq::empty());
                    Some(raw_att)
                },
            }
        },
        _ => {
            match &valid_att.payload {
                LcsfValidAttPayload::SubattArr(_) => Some(empty_raw_att()),
                LcsfValidAttPayload::Data(data) => {
                    if !validate_data_type(data.len(), data_type) || data.len() > 0xffff {
                        return None;
                    }
                    Some(
                        LcsfRawAtt {
                            has_subatt: false,
                            payload_size: data.len() as u16,
                            payload: LcsfRawAttPayload::Data(copy_bytes(data)),
                        },
                    )
                },
            }
        },
    }
}

/// The raw placeholder of an absent attribute.
fn empty_raw_att() -> (raw_att: LcsfRawAtt)
    ensures
        raw_att@ == absent_raw_att(),
{
    LcsfRawAtt { has_subatt: false, payload_size: 0, payload: LcsfRawAttPayload::Data(Vec::new()) }
}

/// Fills the raw attributes of one level from the validated attributes and
/// the descriptors of that level, which must be as many.
fn fill_att_arr(att_desc_arr: &Vec<(u16, LcsfAttDesc)>, valid_att_arr: &Vec<LcsfValidAtt>) -> (res:
    Option<Vec<(u16, LcsfRawAtt)>>)
    ensures
        match spec_fill_atts(att_descs_view(att_desc_arr@), valid_atts_view(valid_att_arr@)) {
            Some(raw_atts) => res is Some && raw_atts_view(res.unwrap()@) == raw_atts,
            None => res is None,
        },
    decreases att_desc_arr,
{
    if att_desc_arr.len() != valid_att_arr.len() {
        return None;
    }
    let ghost descs = att_descs_view(att_desc_arr@);
    let ghost valids = valid_atts_view(valid_att_arr@);
    let mut raw_att_arr: Vec<(u16, LcsfRawAtt)> = Vec::new();
    let mut idx: usize = 0;
    proof {
        assert(descs.skip(0) =~= descs);
        assert(valids.skip(0) =~= valids);
        assert(raw_atts_view(raw_att_arr@) =~= Seq::empty());
        assert(forall|rest: Seq<(u16, RawAtt)>| #[trigger]
            (Seq::<(u16, RawAtt)>::empty() + rest) =~= rest);
    }
    while idx < att_desc_arr.len()
        invariant
            idx <= att_desc_arr.len(),
            att_desc_arr.len() == valid_att_arr.len(),
            descs == att_descs_view(att_desc_arr@),
            valids == valid_atts_view(valid_att_arr@),
            spec_fill_atts(descs, valids) == match spec_fill_atts(
                descs.skip(idx as int),
                valids.skip(idx as int),
            ) {
                Some(rest) => Some(raw_atts_view(raw_att_arr@) + rest),
                None => None,
            },
        decreases att_desc_arr.len() - idx,
    {
        let ghost done = raw_atts_view(raw_att_arr@);
        proof {
            assert(decreases_to!(att_desc_arr@ => att_desc_arr@[idx as int]));
            assert(descs.skip(idx as int).skip(1) =~= descs.skip(idx + 1));
            assert(valids.skip(idx as int).skip(1) =~= valids.skip(idx + 1));
        }
        match fill_att_rec(&att_desc_arr[idx].1, &valid_att_arr[idx]) {
            None => {
                return None;
            },
            Some(raw_att) => {
                let entry = (att_desc_arr[idx].0, raw_att);
                proof {
                    assert(raw_atts_view(raw_att_arr@.push(entry)) =~= done + seq![
                        (entry.0, entry.1@),
                    ]);
                    assert(forall|rest: Seq<(u16, RawAtt)>| #[trigger]
                        (done + (seq![(entry.0, entry.1@)] + rest)) =~= (done + seq![
                            (entry.0, entry.1@),
                        ]) + rest);
                }
                raw_att_arr.push(entry);
                idx += 1;
            },
        }
    }
    proof {
        assert(raw_atts_view(raw_att_arr@) + Seq::<(u16, RawAtt)>::empty() =~= raw_atts_view(
            raw_att_arr@,
        ));
    }
    Some(raw_att_arr)
}

/// Fills a raw attribute from a validated attribute and its descriptor,
/// sub-attributes included.
///
/// An empty attribute is accepted only where the descriptor makes it
/// optional; it gives a placeholder of payload size zero, which the
/// transcoder skips. A list of sub-attributes must be as long as the
/// descriptor's; the payload size of the node is the number of its
/// sub-attributes that are not empty. Data must suit the descriptor's type.
pub fn fill_att_rec(att_desc: &LcsfAttDesc, valid_att: &LcsfValidAtt) -> (res: Option<LcsfRawAtt>)
    ensures
        match spec_fill_att_rec(att_desc@, valid_att@) {
            Some(raw_att) => res is Some && res.unwrap()@ == raw_att,
            None => res is None,
        },
    decreases att_desc,
{
    match att_desc.data_type {
        LcsfDataType::Subattributes => {
            match &valid_att.payload {
                LcsfValidAttPayload::Data(_) => Some(empty_raw_att()),
                LcsfValidAttPayload::SubattArr(valid_subatt_arr) => {
                    if valid_subatt_arr.len() == 0 {
                        if !att_desc.is_optional {
                            return None;
                        } else {
                            return Some(empty_raw_att());
                        }
                    }
                    if valid_subatt_arr.len() != att_desc.subatt_desc_arr.len() {
                        return None;
                    }
                    let head = match fill_att_info(att_desc.data_type, valid_att) {
                        None => {
                            return None;
                        },
                        Some(head) => head,
                    };
                    let raw_subatt_arr = match fill_att_arr(
                        &att_desc.subatt_desc_arr,
                        valid_subatt_arr,
                    ) {
                        None => {
                            return None;
                        },
                        Some(raw_subatt_arr) => raw_subatt_arr,
                    };
                    Some(
                        LcsfRawAtt {
                            has_subatt: head.has_subatt,
                            payload_size: head.payload_size,
                            payload: LcsfRawAttPayload::SubattArr(raw_subatt_arr),
                        },
                    )
                },
            }
        },
        _ => {
            match &valid_att.payload {
                LcsfValidAttPayload::SubattArr(_) => Some(empty_raw_att()),
                LcsfValidAttPayload::Data(data) => {
                    if data.len() == 0 {
                        if !att_desc.is_optional {
                            return None;
                        } else {
                            return Some(empty_raw_att());
                        }
                    }
                    fill_att_info(att_desc.data_type, valid_att)
                },
            }
        },
    }
}

/// Turns a validated command into a raw message, following the command's
/// descriptor.
///
/// The command must hold one attribute for each attribute of the descriptor,
/// in the same order. The attribute number of the message is the number of
/// attributes that are not empty. Fails where an attribute is empty though
/// mandatory, where its payload does not suit the descriptor, or where a
/// number does not fit its field.
pub fn encode_valid(prot_id: u16, cmd_desc: &LcsfCmdDesc, valid_cmd: &LcsfValidCmd) -> (res: Option<
    LcsfRawMsg,
>)
    ensures
        match spec_encode_valid(prot_id, cmd_desc@, valid_cmd@) {
            Some(raw_msg) => res is Some && res.unwrap()@ == raw_msg,
            None => res is None,
        },
        res is Some <==> valid_cmd_fillable(cmd_desc@, valid_cmd@),
{
    proof {
        lemma_fill_atts_some(cmd_desc@.att_desc_arr, valid_cmd@.att_arr);
    }
    if valid_cmd.att_arr.len() != cmd_desc.att_desc_arr.len() {
        return None;
    }
    let att_nb: usize = cnt_non_empty_att(valid_cmd.att_arr.as_slice());
    if att_nb > 0xffff {
        return None;
    }
    match fill_att_arr(&cmd_desc.att_desc_arr, &valid_cmd.att_arr) {
        None => None,
        Some(att_arr) => Some(
            LcsfRawMsg { prot_id, cmd_id: valid_cmd.cmd_id, att_nb: att_nb as u16, att_arr },
        ),
    }
}

// *** Copies ***

/// Copies a list of attribute descriptors, each with its id.
fn clone_att_desc_arr(att_desc_arr: &Vec<(u16, LcsfAttDesc)>) -> (out: Vec<(u16, LcsfAttDesc)>)
    ensures
        att_descs_view(out@) == att_descs_view(att_desc_arr@),
    decreases att_desc_arr,
{
    let mut out: Vec<(u16, LcsfAttDesc)> = Vec::new();
    let mut idx: usize = 0;
    while idx < att_desc_arr.len()
        invariant
            idx <= att_desc_arr.len(),
            out.len() == idx,
            forall|j: int|
                0 <= j < idx ==> out@[j].0 == att_desc_arr@[j].0 && out@[j].1@
                    == att_desc_arr@[j].1@,
        decreases att_desc_arr.len() - idx,
    {
        proof {
            assert(decreases_to!(att_desc_arr@ => att_desc_arr@[idx as int]));
        }
        let att_desc = att_desc_arr[idx].1.clone();
        out.push((att_desc_arr[idx].0, att_desc));
        idx += 1;
    }
    assert(att_descs_view(out@) =~= att_descs_view(att_desc_arr@));
    out
}

impl Clone for LcsfAttDesc {
    fn clone(&self) -> (res: Self)
        ensures
            res@ == self@,
        decreases self,
    {
        LcsfAttDesc {
            is_optional: self.is_optional,
            data_type: self.data_type,
            subatt_desc_arr: clone_att_desc_arr(&self.subatt_desc_arr),
        }
    }
}

impl Clone for LcsfCmdDesc {
    fn clone(&self) -> (res: Self)
        ensures
            res@ == self@,
    {
        LcsfCmdDesc { att_desc_arr: clone_att_desc_arr(&self.att_desc_arr) }
    }
}

impl Clone for LcsfProtDesc {
    fn clone(&self) -> (res: Self)
        ensures
            res@ == self@,
    {
        let mut cmd_desc_arr: Vec<(u16, LcsfCmdDesc)> = Vec::new();
        let mut idx: usize = 0;
        while idx < self.cmd_desc_arr.len()
            invariant
                idx <= self.cmd_desc_arr.len(),
                cmd_desc_arr.len() == idx,
                forall|j: int|
                    0 <= j < idx ==> cmd_desc_arr@[j].0 == self.cmd_desc_arr@[j].0
                        && cmd_desc_arr@[j].1@ == self.cmd_desc_arr@[j].1@,
            decreases self.cmd_desc_arr.len() - idx,
        {
            let cmd_desc = self.cmd_desc_arr[idx].1.clone();
            cmd_desc_arr.push((self.cmd_desc_arr[idx].0, cmd_desc));
            idx += 1;
        }
        let res = LcsfProtDesc { cmd_desc_arr };
        assert(res@.cmd_desc_arr =~= self@.cmd_desc_arr);
        res
    }
}

/// Copies a list of validated attributes.
fn clone_valid_att_arr(att_arr: &Vec<LcsfValidAtt>) -> (out: Vec<LcsfValidAtt>)
    ensures
        valid_atts_view(out@) == valid_atts_view(att_arr@),
    decreases att_arr,
{
    let mut out: Vec<LcsfValidAtt> = Vec::new();
    let mut idx: usize = 0;
    while idx < att_arr.len()
        invariant
            idx <= att_arr.len(),
            out.len() == idx,
            forall|j: int| 0 <= j < idx ==> out@[j]@ == att_arr@[j]@,
        decreases att_arr.len() - idx,
    {
        proof {
            assert(decreases_to!(att_arr@ => att_arr@[idx as int]));
        }
        let att = att_arr[idx].clone();
        out.push(att);
        idx += 1;
    }
    assert(valid_atts_view(out@) =~= valid_atts_view(att_arr@));
    out
}

impl Clone for LcsfValidAtt {
    fn clone(&self) -> (res: Self)
        ensures
            res@ == self@,
        decreases self,
    {
        let payload = match &self.payload {
            LcsfValidAttPayload::Data(data) => LcsfValidAttPayload::Data(copy_bytes(data)),
            LcsfValidAttPayload::SubattArr(subatt_arr) => {
                proof {
                    assert(decreases_to!(self.payload => self.payload->SubattArr_0));
                }
                LcsfValidAttPayload::SubattArr(clone_valid_att_arr(subatt_arr))
            },
        };
        LcsfValidAtt { payload }
    }
}

impl Clone for LcsfValidAttPayload {
    fn clone(&self) -> (res: Self)
        ensures
            match (*self, res) {
                (LcsfValidAttPayload::Data(data), LcsfValidAttPayload::Data(copy)) => copy@
                    == data@,
                (
                    LcsfValidAttPayload::SubattArr(subatts),
                    LcsfValidAttPayload::SubattArr(copy),
                ) => valid_atts_view(copy@) == valid_atts_view(subatts@),
                _ => false,
            },
    {
        match self {
            LcsfValidAttPayload::Data(data) => LcsfValidAttPayload::Data(copy_bytes(data)),
            LcsfValidAttPayload::SubattArr(subatt_arr) => LcsfValidAttPayload::SubattArr(
                clone_valid_att_arr(subatt_arr),
            ),
        }
    }
}

impl Clone for LcsfValidCmd {
    fn clone(&self) -> (res: Self)
        ensures
            res@ == self@,
    {
        LcsfValidCmd { cmd_id: self.cmd_id, att_arr: clone_valid_att_arr(&self.att_arr) }
    }
}

} // verus!