//! What holds of validation: which error comes, and how a validated command
//! follows its descriptor.

use crate::lcsf_transcoder::{RawAtt, RawMsg};
use crate::lcsf_validator::{
    att_descs_wf, ids_unique, lemma_find_last, spec_fill_att_rec, spec_fill_atts,
    spec_find_cmd_desc, spec_find_last, spec_validate_att, spec_validate_atts,
    spec_validate_found, spec_validate_msg, valid_att_aligned, valid_att_fillable,
    valid_att_is_empty, valid_atts_aligned, valid_atts_complete, valid_atts_fillable, AttDesc,
    LcsfDataType, LcsfValidateErrorEnum, ProtDesc, ValidAtt, ValidCmd, ValidPayload,
};
use vstd::prelude::*;
use vstd::set_lib::{lemma_int_range, set_int_range};

verus! {

// *** Lookup ***

/// The last entry with an id is the one that `spec_find_last` finds.
pub proof fn lemma_find_last_is<T>(entries: Seq<(u16, T)>, id: u16, idx: int)
    requires
        0 <= idx < entries.len(),
        entries[idx].0 == id,
        forall|j: int| idx < j < entries.len() ==> entries[j].0 != id,
    ensures
        spec_find_last(entries, id) == Some(idx),
{
    lemma_find_last(entries, id);
}

/// Where no entry has an id, `spec_find_last` finds nothing.
pub proof fn lemma_find_last_none<T>(entries: Seq<(u16, T)>, id: u16)
    requires
        forall|j: int| 0 <= j < entries.len() ==> entries[j].0 != id,
    ensures
        spec_find_last(entries, id) is None,
{
    lemma_find_last(entries, id);
}

/// Taking away a first entry with another id moves what is found by one.
pub proof fn lemma_find_last_skip<T>(entries: Seq<(u16, T)>, id: u16)
    requires
        entries.len() > 0,
        entries[0].0 != id,
    ensures
        spec_find_last(entries, id) == match spec_find_last(entries.skip(1), id) {
            Some(idx) => Some(idx + 1),
            None => None,
        },
{
    let tail = entries.skip(1);
    lemma_find_last(tail, id);
    match spec_find_last(tail, id) {
        Some(idx) => {
            assert forall|j: int| idx + 1 < j < entries.len() implies entries[j].0 != id by {
                assert(entries[j] == tail[j - 1]);
            }
            lemma_find_last_is(entries, id, idx + 1);
        },
        None => {
            assert forall|j: int| 0 <= j < entries.len() implies entries[j].0 != id by {
                if j > 0 {
                    assert(entries[j] == tail[j - 1]);
                }
            }
            lemma_find_last_none(entries, id);
        },
    }
}

// *** Which error comes ***

/// Too many attributes: a message of a known command that holds more
/// attributes than the command's descriptor gives `TooManyAtt`.
pub proof fn lemma_validate_too_many(table: Map<u16, ProtDesc>, rx_msg: RawMsg)
    requires
        spec_find_cmd_desc(table, rx_msg.prot_id, rx_msg.cmd_id) matches Some(cmd_desc)
            && rx_msg.att_arr.len() > cmd_desc.att_desc_arr.len(),
    ensures
        spec_validate_msg(table, rx_msg) == Err::<(ValidCmd, u16), _>(
            LcsfValidateErrorEnum::TooManyAtt,
        ),
{
}

/// An unknown protocol id gives `UnknownProtId`, and an unknown command id of
/// a known protocol gives `UnknownCmdId`, whatever the attributes.
pub proof fn lemma_validate_unknown_ids(table: Map<u16, ProtDesc>, rx_msg: RawMsg)
    ensures
        !table.contains_key(rx_msg.prot_id) ==> spec_validate_msg(table, rx_msg) == Err::<
            (ValidCmd, u16),
            _,
        >(LcsfValidateErrorEnum::UnknownProtId),
        table.contains_key(rx_msg.prot_id) && spec_find_last(
            table[rx_msg.prot_id].cmd_desc_arr,
            rx_msg.cmd_id,
        ) is None ==> spec_validate_msg(table, rx_msg) == Err::<(ValidCmd, u16), _>(
            LcsfValidateErrorEnum::UnknownCmdId,
        ),
{
}

/// A mandatory attribute that is missing fails the validation of its level;
/// the error is `MissMandatoryAtt` unless a descriptor before that of the
/// missing attribute fails first.
pub proof fn lemma_validate_atts_missing_mandatory(
    att_descs: Seq<(u16, AttDesc)>,
    rx_atts: Seq<(u16, RawAtt)>,
    idx: int,
)
    requires
        0 <= idx < att_descs.len(),
        !att_descs[idx].1.is_optional,
        spec_find_last(rx_atts, att_descs[idx].0) is None,
    ensures
        spec_validate_atts(att_descs, rx_atts) is Err,
        spec_validate_atts(att_descs.take(idx), rx_atts) is Ok ==> spec_validate_atts(
            att_descs,
            rx_atts,
        ) == Err::<(nat, Seq<ValidAtt>), _>(LcsfValidateErrorEnum::MissMandatoryAtt),
    decreases idx,
{
    let first = spec_validate_att(att_descs[0].0, att_descs[0].1, rx_atts);
    if idx > 0 {
        let tail = att_descs.skip(1);
        let front = att_descs.take(idx);
        assert(tail[idx - 1] == att_descs[idx]);
        assert(front[0] == att_descs[0]);
        assert(front.skip(1) =~= tail.take(idx - 1));
        lemma_validate_atts_missing_mandatory(tail, rx_atts, idx - 1);
        assert(spec_validate_atts(front, rx_atts) is Ok ==> first is Ok && spec_validate_atts(
            tail.take(idx - 1),
            rx_atts,
        ) is Ok);
    } else {
        assert(first == Err::<(nat, ValidAtt), _>(LcsfValidateErrorEnum::MissMandatoryAtt));
    }
}

/// Missing mandatory attribute: a message of a known command that lacks an
/// attribute that the command's descriptor makes mandatory is refused. The
/// error is `MissMandatoryAtt` where the message does not hold too many
/// attributes and the descriptors before that of the missing attribute find
/// nothing wrong.
pub proof fn lemma_validate_missing_mandatory(table: Map<u16, ProtDesc>, rx_msg: RawMsg, idx: int)
    requires
        spec_find_cmd_desc(table, rx_msg.prot_id, rx_msg.cmd_id) matches Some(cmd_desc) && 0 <= idx
            < cmd_desc.att_desc_arr.len() && !cmd_desc.att_desc_arr[idx].1.is_optional
            && spec_find_last(rx_msg.att_arr, cmd_desc.att_desc_arr[idx].0) is None,
    ensures
        spec_validate_msg(table, rx_msg) is Err,
        ({
            let att_descs = spec_find_cmd_desc(
                table,
                rx_msg.prot_id,
                rx_msg.cmd_id,
            ).unwrap().att_desc_arr;
            rx_msg.att_arr.len() <= att_descs.len() && spec_validate_atts(
                att_descs.take(idx),
                rx_msg.att_arr,
            ) is Ok ==> spec_validate_msg(table, rx_msg) == Err::<(ValidCmd, u16), _>(
                LcsfValidateErrorEnum::MissMandatoryAtt,
            )
        }),
{
    let att_descs = spec_find_cmd_desc(table, rx_msg.prot_id, rx_msg.cmd_id).unwrap().att_desc_arr;
    lemma_validate_atts_missing_mandatory(att_descs, rx_msg.att_arr, idx);
}

/// Validation counts no more attributes than a set of positions holds, where
/// every descriptor that finds an attribute of a size that is not zero finds
/// it at a position of the set. No two descriptors find the same attribute,
/// their ids being different.
pub proof fn lemma_present_bound(
    att_descs: Seq<(u16, AttDesc)>,
    rx_atts: Seq<(u16, RawAtt)>,
    positions: Set<int>,
)
    requires
        ids_unique(att_descs),
        positions.finite(),
        spec_validate_atts(att_descs, rx_atts) is Ok,
        forall|k: int|
            0 <= k < att_descs.len() && (spec_validate_att(
                (#[trigger] att_descs[k]).0,
                att_descs[k].1,
                rx_atts,
            ) matches Ok((size, _)) && size > 0) ==> (spec_find_last(
                rx_atts,
                att_descs[k].0,
            ) matches Some(pos) && positions.contains(pos)),
    ensures
        spec_validate_atts(att_descs, rx_atts).unwrap().0 <= positions.len(),
    decreases att_descs.len(),
{
    if att_descs.len() > 0 {
        let (att_id, att_desc) = att_descs[0];
        let tail = att_descs.skip(1);
        let (size, _) = spec_validate_att(att_id, att_desc, rx_atts).unwrap();
        let left = if size > 0 {
            positions.remove(spec_find_last(rx_atts, att_id).unwrap())
        } else {
            positions
        };
        assert forall|i: int, j: int| 0 <= i < j < tail.len() implies tail[i].0 != tail[j].0 by {
            assert(tail[i] == att_descs[i + 1]);
            assert(tail[j] == att_descs[j + 1]);
        }
        assert forall|k: int|
            0 <= k < tail.len() && (spec_validate_att((#[trigger] tail[k]).0, tail[k].1, rx_atts)
                matches Ok((size_k, _)) && size_k > 0) implies (spec_find_last(
            rx_atts,
            tail[k].0,
        ) matches Some(pos) && left.contains(pos)) by {
            assert(tail[k] == att_descs[k + 1]);
            lemma_find_last(rx_atts, tail[k].0);
            lemma_find_last(rx_atts, att_id);
        }
        lemma_present_bound(tail, rx_atts, left);
    }
}

/// Validation counts no more attributes than were received, where no two
/// descriptors have the same id; and fewer, where one of the received
/// attributes has an id that no descriptor has.
pub proof fn lemma_present_at_most_received(
    att_descs: Seq<(u16, AttDesc)>,
    rx_atts: Seq<(u16, RawAtt)>,
)
    requires
        ids_unique(att_descs),
        spec_validate_atts(att_descs, rx_atts) is Ok,
    ensures
        spec_validate_atts(att_descs, rx_atts).unwrap().0 <= rx_atts.len(),
        (exists|j: int|
            0 <= j < rx_atts.len() && spec_find_last(att_descs, (#[trigger] rx_atts[j]).0) is None)
            ==> spec_validate_atts(att_descs, rx_atts).unwrap().0 < rx_atts.len(),
{
    let all = set_int_range(0, rx_atts.len() as int);
    lemma_int_range(0, rx_atts.len() as int);
    assert forall|k: int|
        0 <= k < att_descs.len() && (spec_validate_att(
            (#[trigger] att_descs[k]).0,
            att_descs[k].1,
            rx_atts,
        ) matches Ok((size, _)) && size > 0) implies (spec_find_last(
        rx_atts,
        att_descs[k].0,
    ) matches Some(pos) && all.contains(pos)) by {
        lemma_find_last(rx_atts, att_descs[k].0);
    }
    lemma_present_bound(att_descs, rx_atts, all);
    if exists|j: int|
        0 <= j < rx_atts.len() && spec_find_last(att_descs, (#[trigger] rx_atts[j]).0) is None {
        let unknown = choose|j: int|
            0 <= j < rx_atts.len() && spec_find_last(att_descs, (#[trigger] rx_atts[j]).0) is None;
        let known = all.remove(unknown);
        lemma_find_last(att_descs, rx_atts[unknown].0);
        assert forall|k: int|
            0 <= k < att_descs.len() && (spec_validate_att(
                (#[trigger] att_descs[k]).0,
                att_descs[k].1,
                rx_atts,
            ) matches Ok((size, _)) && size > 0) implies (spec_find_last(
            rx_atts,
            att_descs[k].0,
        ) matches Some(pos) && known.contains(pos)) by {
            lemma_find_last(rx_atts, att_descs[k].0);
        }
        lemma_present_bound(att_descs, rx_atts, known);
    }
}

/// Unknown attribute: a message of a known command that holds an attribute
/// whose id the command's descriptor does not have is refused, where no two
/// attributes of the descriptor have the same id. The error is `UnknownAttId`
/// where the message does not hold too many attributes and the descriptors
/// find nothing wrong.
pub proof fn lemma_validate_unknown_att(table: Map<u16, ProtDesc>, rx_msg: RawMsg, idx: int)
    requires
        spec_find_cmd_desc(table, rx_msg.prot_id, rx_msg.cmd_id) matches Some(cmd_desc)
            && ids_unique(cmd_desc.att_desc_arr) && 0 <= idx < rx_msg.att_arr.len()
            && spec_find_last(cmd_desc.att_desc_arr, rx_msg.att_arr[idx].0) is None,
    ensures
        spec_validate_msg(table, rx_msg) is Err,
        ({
            let att_descs = spec_find_cmd_desc(
                table,
                rx_msg.prot_id,
                rx_msg.cmd_id,
            ).unwrap().att_desc_arr;
            rx_msg.att_arr.len() <= att_descs.len() && spec_validate_atts(
                att_descs,
                rx_msg.att_arr,
            ) is Ok ==> spec_validate_msg(table, rx_msg) == Err::<(ValidCmd, u16), _>(
                LcsfValidateErrorEnum::UnknownAttId,
            )
        }),
{
    let att_descs = spec_find_cmd_desc(table, rx_msg.prot_id, rx_msg.cmd_id).unwrap().att_desc_arr;
    if spec_validate_atts(att_descs, rx_msg.att_arr) is Ok {
        lemma_present_at_most_received(att_descs, rx_msg.att_arr);
    }
}

/// Validation counts fewer attributes than were received where two of them
/// have the same id, under descriptors of which no two have the same id: only
/// the last attribute of an id is found.
pub proof fn lemma_present_misses_duplicate(
    att_descs: Seq<(u16, AttDesc)>,
    rx_atts: Seq<(u16, RawAtt)>,
    first: int,
    second: int,
)
    requires
        ids_unique(att_descs),
        spec_validate_atts(att_descs, rx_atts) is Ok,
        0 <= first < second < rx_atts.len(),
        rx_atts[first].0 == rx_atts[second].0,
    ensures
        spec_validate_atts(att_descs, rx_atts).unwrap().0 < rx_atts.len(),
{
    let others = set_int_range(0, rx_atts.len() as int).remove(first);
    lemma_int_range(0, rx_atts.len() as int);
    assert forall|k: int|
        0 <= k < att_descs.len() && (spec_validate_att(
            (#[trigger] att_descs[k]).0,
            att_descs[k].1,
            rx_atts,
        ) matches Ok((size, _)) && size > 0) implies (spec_find_last(
        rx_atts,
        att_descs[k].0,
    ) matches Some(pos) && others.contains(pos)) by {
        lemma_find_last(rx_atts, att_descs[k].0);
    }
    lemma_present_bound(att_descs, rx_atts, others);
}

/// Two attributes with one id: a message of a known command that holds, at
/// its first level, two attributes with the same id is refused, where no two
/// attributes of the command's descriptor have the same id.
pub proof fn lemma_validate_duplicate_att(
    table: Map<u16, ProtDesc>,
    rx_msg: RawMsg,
    first: int,
    second: int,
)
    requires
        spec_find_cmd_desc(table, rx_msg.prot_id, rx_msg.cmd_id) matches Some(cmd_desc)
            && ids_unique(cmd_desc.att_desc_arr),
        0 <= first < second < rx_msg.att_arr.len(),
        rx_msg.att_arr[first].0 == rx_msg.att_arr[second].0,
    ensures
        spec_validate_msg(table, rx_msg) is Err,
{
    let att_descs = spec_find_cmd_desc(table, rx_msg.prot_id, rx_msg.cmd_id).unwrap().att_desc_arr;
    if spec_validate_atts(att_descs, rx_msg.att_arr) is Ok {
        lemma_present_misses_duplicate(att_descs, rx_msg.att_arr, first, second);
    }
}

// *** Validated commands follow their descriptor ***

/// The validated attributes of one level are what validation makes of each
/// descriptor, in the descriptors' order.
pub proof fn lemma_validate_atts_index(
    att_descs: Seq<(u16, AttDesc)>,
    rx_atts: Seq<(u16, RawAtt)>,
    idx: int,
)
    requires
        spec_validate_atts(att_descs, rx_atts) is Ok,
        0 <= idx < att_descs.len(),
    ensures
        spec_validate_atts(att_descs, rx_atts).unwrap().1.len() == att_descs.len(),
        spec_validate_att(att_descs[idx].0, att_descs[idx].1, rx_atts) matches Ok((_, valid_att))
            && spec_validate_atts(att_descs, rx_atts).unwrap().1[idx] == valid_att,
    decreases att_descs.len(),
{
    let tail = att_descs.skip(1);
    let first = spec_validate_att(att_descs[0].0, att_descs[0].1, rx_atts);
    lemma_validate_atts_len(tail, rx_atts);
    if idx > 0 {
        assert(tail[idx - 1] == att_descs[idx]);
        lemma_validate_atts_index(tail, rx_atts, idx - 1);
    }
}

/// Validation gives one validated attribute for each descriptor.
pub proof fn lemma_validate_atts_len(att_descs: Seq<(u16, AttDesc)>, rx_atts: Seq<(u16, RawAtt)>)
    ensures
        spec_validate_atts(att_descs, rx_atts) matches Ok((_, valid_atts)) ==> valid_atts.len()
            == att_descs.len(),
    decreases att_descs.len(),
{
    if att_descs.len() > 0 {
        let first = spec_validate_att(att_descs[0].0, att_descs[0].1, rx_atts);
        lemma_validate_atts_len(att_descs.skip(1), rx_atts);
    }
}

/// Positions: the validated attributes of one level stand at the positions of
/// their descriptors, at that level and below.
pub proof fn lemma_validated_atts_aligned(
    att_descs: Seq<(u16, AttDesc)>,
    rx_atts: Seq<(u16, RawAtt)>,
)
    ensures
        spec_validate_atts(att_descs, rx_atts) matches Ok((_, valid_atts)) ==> valid_atts_aligned(
            att_descs,
            valid_atts,
        ),
    decreases att_descs, 1nat,
{
    if let Ok((_, valid_atts)) = spec_validate_atts(att_descs, rx_atts) {
        lemma_validate_atts_len(att_descs, rx_atts);
        assert forall|i: int| 0 <= i < att_descs.len() implies valid_att_aligned(
            (#[trigger] att_descs[i]).1,
            valid_atts[i],
        ) by {
            lemma_validate_atts_index(att_descs, rx_atts, i);
            lemma_find_last(rx_atts, att_descs[i].0);
            if let Some(pos) = spec_find_last(rx_atts, att_descs[i].0) {
                lemma_validated_att_aligned(att_descs[i].1, rx_atts[pos].1);
            }
        }
    }
}

/// Positions: the sub-attributes of a validated attribute stand at the
/// positions of their descriptors.
pub proof fn lemma_validated_att_aligned(att_desc: AttDesc, rx_att: RawAtt)
    ensures
        spec_validate_found(att_desc, rx_att) matches Ok((_, valid_att)) ==> valid_att_aligned(
            att_desc,
            valid_att,
        ),
    decreases att_desc, 0nat,
{
    if let Ok((_, valid_att)) = spec_validate_found(att_desc, rx_att) {
        if let ValidPayload::SubattArr(valid_subatts) = valid_att.payload {
            lemma_validated_atts_aligned(att_desc.subatt_desc_arr, rx_att.payload->SubattArr_0);
        }
    }
}

/// Positions: a validated command holds one attribute for each attribute of
/// its command's descriptor, at the descriptor's position, and so on below.
pub proof fn lemma_validated_cmd_aligned(table: Map<u16, ProtDesc>, rx_msg: RawMsg)
    requires
        spec_validate_msg(table, rx_msg) is Ok,
    ensures
        spec_find_cmd_desc(table, rx_msg.prot_id, rx_msg.cmd_id) matches Some(cmd_desc)
            && valid_atts_aligned(
            cmd_desc.att_desc_arr,
            spec_validate_msg(table, rx_msg).unwrap().0.att_arr,
        ),
        spec_validate_msg(table, rx_msg).unwrap().0.cmd_id == rx_msg.cmd_id,
        spec_validate_msg(table, rx_msg).unwrap().1 == rx_msg.prot_id,
{
    let cmd_desc = spec_find_cmd_desc(table, rx_msg.prot_id, rx_msg.cmd_id).unwrap();
    lemma_validated_atts_aligned(cmd_desc.att_desc_arr, rx_msg.att_arr);
}

/// A descriptor whose attribute is validated with a size of zero though it
/// was received keeps validation from finding all the received attributes.
pub proof fn lemma_found_empty_is_not_counted(
    att_descs: Seq<(u16, AttDesc)>,
    rx_atts: Seq<(u16, RawAtt)>,
    idx: int,
)
    requires
        ids_unique(att_descs),
        spec_validate_atts(att_descs, rx_atts) is Ok,
        0 <= idx < att_descs.len(),
        spec_find_last(rx_atts, att_descs[idx].0) is Some,
        spec_validate_att(att_descs[idx].0, att_descs[idx].1, rx_atts) matches Ok((size, _))
            && size == 0,
    ensures
        spec_validate_atts(att_descs, rx_atts).unwrap().0 < rx_atts.len(),
{
    let pos = spec_find_last(rx_atts, att_descs[idx].0).unwrap();
    let others = set_int_range(0, rx_atts.len() as int).remove(pos);
    lemma_int_range(0, rx_atts.len() as int);
    lemma_find_last(rx_atts, att_descs[idx].0);
    assert forall|k: int|
        0 <= k < att_descs.len() && (spec_validate_att(
            (#[trigger] att_descs[k]).0,
            att_descs[k].1,
            rx_atts,
        ) matches Ok((size, _)) && size > 0) implies (spec_find_last(
        rx_atts,
        att_descs[k].0,
    ) matches Some(other) && others.contains(other)) by {
        lemma_find_last(rx_atts, att_descs[k].0);
        assert(k != idx);
    }
    lemma_present_bound(att_descs, rx_atts, others);
}

/// Mandatory attributes: where validation finds all the received attributes
/// of a level, no mandatory attribute of that level or below is empty once
/// validated. This holds under descriptors of which no two of one level have
/// the same id.
pub proof fn lemma_validated_atts_complete(
    att_descs: Seq<(u16, AttDesc)>,
    rx_atts: Seq<(u16, RawAtt)>,
)
    requires
        att_descs_wf(att_descs),
        spec_validate_atts(att_descs, rx_atts) matches Ok((present, _)) && present
            >= rx_atts.len(),
    ensures
        valid_atts_complete(att_descs, spec_validate_atts(att_descs, rx_atts).unwrap().1),
    decreases att_descs,
{
    let (present, valid_atts) = spec_validate_atts(att_descs, rx_atts).unwrap();
    lemma_validate_atts_len(att_descs, rx_atts);
    assert forall|i: int| 0 <= i < att_descs.len() implies {
        &&& !(#[trigger] att_descs[i]).1.is_optional ==> !valid_att_is_empty(valid_atts[i])
        &&& valid_atts[i].payload matches ValidPayload::SubattArr(valid_subatts)
            ==> valid_atts_complete(att_descs[i].1.subatt_desc_arr, valid_subatts)
    } by {
        let (att_id, att_desc) = att_descs[i];
        lemma_validate_atts_index(att_descs, rx_atts, i);
        lemma_find_last(rx_atts, att_id);
        let (size, valid_att) = spec_validate_att(att_id, att_desc, rx_atts).unwrap();
        if let Some(pos) = spec_find_last(rx_atts, att_id) {
            if size == 0 {
                lemma_found_empty_is_not_counted(att_descs, rx_atts, i);
            }
            if let ValidPayload::SubattArr(valid_subatts) = valid_att.payload {
                lemma_validated_atts_complete(
                    att_desc.subatt_desc_arr,
                    rx_atts[pos].1.payload->SubattArr_0,
                );
            }
        }
    }
}

/// Mandatory attributes: in a validated command no mandatory attribute is
/// empty, at any level, where no two attributes of one level of the command's
/// descriptor have the same id.
pub proof fn lemma_validated_cmd_complete(table: Map<u16, ProtDesc>, rx_msg: RawMsg)
    requires
        spec_validate_msg(table, rx_msg) is Ok,
        spec_find_cmd_desc(table, rx_msg.prot_id, rx_msg.cmd_id) matches Some(cmd_desc)
            ==> att_descs_wf(cmd_desc.att_desc_arr),
    ensures
        spec_find_cmd_desc(table, rx_msg.prot_id, rx_msg.cmd_id) matches Some(cmd_desc)
            && valid_atts_complete(
            cmd_desc.att_desc_arr,
            spec_validate_msg(table, rx_msg).unwrap().0.att_arr,
        ),
{
    let cmd_desc = spec_find_cmd_desc(table, rx_msg.prot_id, rx_msg.cmd_id).unwrap();
    lemma_validated_atts_complete(cmd_desc.att_desc_arr, rx_msg.att_arr);
}

// *** When a validated command can be written ***

/// A validated attribute gives a raw attribute exactly where it can be
/// written under its descriptor.
pub proof fn lemma_fill_att_some(att_desc: AttDesc, valid_att: ValidAtt)
    ensures
        spec_fill_att_rec(att_desc, valid_att) is Some <==> valid_att_fillable(
            att_desc,
            valid_att,
        ),
    decreases att_desc, 0nat,
{
    if att_desc.data_type == LcsfDataType::Subattributes {
        if let ValidPayload::SubattArr(valid_subatts) = valid_att.payload {
            lemma_fill_atts_some(att_desc.subatt_desc_arr, valid_subatts);
        }
    }
}

/// Validated attributes give raw attributes exactly where they can be written
/// under the descriptors of their positions.
pub proof fn lemma_fill_atts_some(att_descs: Seq<(u16, AttDesc)>, valid_atts: Seq<ValidAtt>)
    ensures
        spec_fill_atts(att_descs, valid_atts) is Some <==> valid_atts_fillable(
            att_descs,
            valid_atts,
        ),
    decreases att_descs, 1nat,
{
    if att_descs.len() == valid_atts.len() && att_descs.len() > 0 {
        let desc_tail = att_descs.skip(1);
        let valid_tail = valid_atts.skip(1);
        lemma_fill_att_some(att_descs[0].1, valid_atts[0]);
        lemma_fill_atts_some(desc_tail, valid_tail);
        if valid_atts_fillable(att_descs, valid_atts) {
            assert forall|i: int| 0 <= i < desc_tail.len() implies valid_att_fillable(
                (#[trigger] desc_tail[i]).1,
                valid_tail[i],
            ) by {
                assert(desc_tail[i] == att_descs[i + 1]);
                assert(valid_tail[i] == valid_atts[i + 1]);
            }
        }
        if valid_att_fillable(att_descs[0].1, valid_atts[0]) && valid_atts_fillable(
            desc_tail,
            valid_tail,
        ) {
            assert forall|i: int| 0 <= i < att_descs.len() implies valid_att_fillable(
                (#[trigger] att_descs[i]).1,
                valid_atts[i],
            ) by {
                if i > 0 {
                    assert(att_descs[i] == desc_tail[i - 1]);
                    assert(valid_atts[i] == valid_tail[i - 1]);
                }
            }
        }
    }
}

} // verus!
