//! Validation and encoding undo each other.
//!
//! Validation, then encoding: turning a validated command back into a raw
//! message gives the message it came from, with its attributes in the order
//! of the descriptor and a placeholder for each absent one. Encoding, then
//! validation: a command such as validation can give, turned into a raw
//! message and freed of the placeholders, is valid and gives the command.

use crate::lcsf_transcoder::{
    drop_absent, drop_absent_in, field_max, raw_att_fits, raw_att_no_empty, raw_att_wf,
    raw_atts_fit, raw_atts_no_empty, raw_atts_wf, raw_msg_wf, spec_encode_buff, subatt_flag,
    LcsfModeEnum, RawAtt, RawMsg, RawPayload,
};
use crate::lcsf_transcoder_proof::lemma_encode_atts_drops_absent;
use crate::lcsf_validator::{
    absent_raw_att, att_desc_wf, att_descs_fit, att_descs_wf, ids_unique, lemma_find_last,
    spec_cnt_non_empty_att, spec_encode_valid, spec_fill_att_rec, spec_fill_atts,
    spec_find_cmd_desc, spec_find_last, spec_validate_att, spec_validate_atts,
    spec_validate_found, spec_validate_msg, valid_att_canonical, valid_att_fillable,
    valid_att_is_empty, valid_atts_canonical, valid_atts_fit, AttDesc, LcsfDataType,
    LcsfValidateErrorEnum, ProtDesc, ValidAtt, ValidCmd, ValidPayload,
};
use crate::lcsf_validator_accept::lemma_present_at_most_descs;
use crate::lcsf_validator_proof::{
    lemma_fill_att_some, lemma_find_last_is, lemma_find_last_none, lemma_find_last_skip,
    lemma_found_empty_is_not_counted, lemma_present_at_most_received, lemma_validate_atts_index,
    lemma_validate_atts_len,
};
use vstd::prelude::*;

verus! {

// *** What comes back ***

/// The received attributes of one level in the order of their descriptors, at
/// this level and below: for each descriptor in turn, the last received
/// attribute with its id, if there is one.
pub open spec fn arrange_atts(att_descs: Seq<(u16, AttDesc)>, rx_atts: Seq<(u16, RawAtt)>) -> Seq<
    (u16, RawAtt),
>
    decreases att_descs, 1nat,
{
    if att_descs.len() == 0 {
        Seq::empty()
    } else {
        match spec_find_last(rx_atts, att_descs[0].0) {
            None => arrange_atts(att_descs.skip(1), rx_atts),
            Some(idx) => seq![(att_descs[0].0, arrange_att(att_descs[0].1, rx_atts[idx].1))]
                + arrange_atts(att_descs.skip(1), rx_atts),
        }
    }
}

/// A received attribute with its sub-attributes, if its descriptor gives it
/// some, in the order of their descriptors.
pub open spec fn arrange_att(att_desc: AttDesc, rx_att: RawAtt) -> RawAtt
    decreases att_desc, 0nat,
{
    match rx_att.payload {
        RawPayload::Data(_) => rx_att,
        RawPayload::SubattArr(rx_subatts) => if att_desc.data_type
            == LcsfDataType::Subattributes {
            RawAtt {
                has_subatt: rx_att.has_subatt,
                payload_size: rx_att.payload_size,
                payload: RawPayload::SubattArr(
                    arrange_atts(att_desc.subatt_desc_arr, rx_subatts),
                ),
            }
        } else {
            rx_att
        },
    }
}

/// Whether received attributes come in the order of their descriptors, at
/// this level and below: their ids are ids of the descriptors, each used once
/// at most, in the descriptors' order.
pub open spec fn raw_atts_in_order(att_descs: Seq<(u16, AttDesc)>, rx_atts: Seq<(u16, RawAtt)>)
    -> bool
    decreases att_descs, 1nat,
{
    if rx_atts.len() == 0 {
        true
    } else if att_descs.len() == 0 {
        false
    } else if att_descs[0].0 == rx_atts[0].0 {
        raw_att_in_order(att_descs[0].1, rx_atts[0].1) && raw_atts_in_order(
            att_descs.skip(1),
            rx_atts.skip(1),
        )
    } else {
        raw_atts_in_order(att_descs.skip(1), rx_atts)
    }
}

/// Whether the sub-attributes of a received attribute, if its descriptor
/// gives it some, come in the order of their descriptors.
pub open spec fn raw_att_in_order(att_desc: AttDesc, rx_att: RawAtt) -> bool
    decreases att_desc, 0nat,
{
    match rx_att.payload {
        RawPayload::Data(_) => true,
        RawPayload::SubattArr(rx_subatts) => att_desc.data_type == LcsfDataType::Subattributes
            ==> raw_atts_in_order(att_desc.subatt_desc_arr, rx_subatts),
    }
}

// *** Counting ***

/// A validated attribute is empty exactly where its size is zero.
pub proof fn lemma_size_zero_is_empty(att_id: u16, att_desc: AttDesc, rx_atts: Seq<(u16, RawAtt)>)
    ensures
        spec_validate_att(att_id, att_desc, rx_atts) matches Ok((size, valid_att)) ==> (size == 0
            <==> valid_att_is_empty(valid_att)),
{
    if let Some(idx) = spec_find_last(rx_atts, att_id) {
        let found = spec_validate_found(att_desc, rx_atts[idx].1);
    }
}

/// Validation counts the validated attributes that are not empty.
pub proof fn lemma_present_is_not_empty(att_descs: Seq<(u16, AttDesc)>, rx_atts: Seq<(u16, RawAtt)>)
    ensures
        spec_validate_atts(att_descs, rx_atts) matches Ok((present, valid_atts))
            ==> spec_cnt_non_empty_att(valid_atts) == present,
    decreases att_descs.len(),
{
    if att_descs.len() > 0 {
        if let Ok((present, valid_atts)) = spec_validate_atts(att_descs, rx_atts) {
            let tail = att_descs.skip(1);
            let (size, valid_att) = spec_validate_att(
                att_descs[0].0,
                att_descs[0].1,
                rx_atts,
            ).unwrap();
            let (_, valid_tail) = spec_validate_atts(tail, rx_atts).unwrap();
            lemma_size_zero_is_empty(att_descs[0].0, att_descs[0].1, rx_atts);
            lemma_present_is_not_empty(tail, rx_atts);
            assert(valid_atts[0] == valid_att);
            assert(valid_atts.skip(1) =~= valid_tail);
        }
    }
}

/// Whether every descriptor that finds a received attribute validates it with
/// a size that is not zero.
pub open spec fn found_are_counted(att_descs: Seq<(u16, AttDesc)>, rx_atts: Seq<(u16, RawAtt)>)
    -> bool {
    forall|k: int|
        0 <= k < att_descs.len() && spec_find_last(rx_atts, (#[trigger] att_descs[k]).0) is Some
            ==> (spec_validate_att(att_descs[k].0, att_descs[k].1, rx_atts) matches Ok((size, _))
            && size > 0)
}

/// Where validation finds as many attributes as were received, every
/// descriptor that finds one validates it with a size that is not zero, and
/// all the received attributes are found.
pub proof fn lemma_accepted_are_counted(att_descs: Seq<(u16, AttDesc)>, rx_atts: Seq<(u16, RawAtt)>)
    requires
        ids_unique(att_descs),
        spec_validate_atts(att_descs, rx_atts) matches Ok((present, _)) && present
            >= rx_atts.len(),
    ensures
        found_are_counted(att_descs, rx_atts),
        spec_validate_atts(att_descs, rx_atts).unwrap().0 == rx_atts.len(),
{
    lemma_present_at_most_received(att_descs, rx_atts);
    assert forall|k: int|
        0 <= k < att_descs.len() && spec_find_last(
            rx_atts,
            (#[trigger] att_descs[k]).0,
        ) is Some implies (spec_validate_att(att_descs[k].0, att_descs[k].1, rx_atts) matches Ok(
        (size, _),
    ) && size > 0) by {
        lemma_validate_atts_index(att_descs, rx_atts, k);
        let (size, _) = spec_validate_att(att_descs[k].0, att_descs[k].1, rx_atts).unwrap();
        if size == 0 {
            lemma_found_empty_is_not_counted(att_descs, rx_atts, k);
        }
    }
}

// *** Validation, then encoding ***

/// A received attribute that validation accepts with a size that is not zero
/// gives, once validated and filled back, itself with its sub-attributes in
/// the order of their descriptors and with placeholders added.
///
/// This holds of an attribute that is sound and holds no payload size of
/// zero, under a descriptor that is sound.
pub proof fn lemma_fill_validated_att(att_desc: AttDesc, rx_att: RawAtt)
    requires
        att_desc_wf(att_desc),
        raw_att_wf(rx_att),
        raw_att_no_empty(rx_att),
        spec_validate_found(att_desc, rx_att) matches Ok((size, _)) && size > 0,
    ensures
        ({
            let (_, valid_att) = spec_validate_found(att_desc, rx_att).unwrap();
            spec_fill_att_rec(att_desc, valid_att) matches Some(raw_att) && raw_att.payload_size
                != 0 && drop_absent_in(raw_att) == arrange_att(att_desc, rx_att)
        }),
    decreases att_desc, 0nat,
{
    if att_desc.data_type == LcsfDataType::Subattributes {
        let att_descs = att_desc.subatt_desc_arr;
        let rx_subatts = rx_att.payload->SubattArr_0;
        let (present, valid_subatts) = spec_validate_atts(att_descs, rx_subatts).unwrap();
        lemma_accepted_are_counted(att_descs, rx_subatts);
        lemma_present_is_not_empty(att_descs, rx_subatts);
        lemma_fill_validated_atts(att_descs, rx_subatts);
    }
}

/// The received attributes of one level that validation accepts give, once
/// validated and filled back, themselves in the order of their descriptors
/// and with placeholders added.
///
/// This holds of attributes that are sound and hold no payload size of zero,
/// under descriptors that are sound, where every descriptor that finds an
/// attribute validates it with a size that is not zero.
pub proof fn lemma_fill_validated_atts(att_descs: Seq<(u16, AttDesc)>, rx_atts: Seq<(u16, RawAtt)>)
    requires
        forall|k: int| 0 <= k < att_descs.len() ==> att_desc_wf(#[trigger] att_descs[k].1),
        raw_atts_wf(rx_atts),
        raw_atts_no_empty(rx_atts),
        spec_validate_atts(att_descs, rx_atts) is Ok,
        found_are_counted(att_descs, rx_atts),
    ensures
        ({
            let (_, valid_atts) = spec_validate_atts(att_descs, rx_atts).unwrap();
            spec_fill_atts(att_descs, valid_atts) matches Some(raw_atts) && drop_absent(raw_atts)
                == arrange_atts(att_descs, rx_atts)
        }),
    decreases att_descs, 1nat,
{
    if att_descs.len() == 0 {
        assert(drop_absent(Seq::<(u16, RawAtt)>::empty()) =~= Seq::<(u16, RawAtt)>::empty());
    } else {
        let (att_id, att_desc) = att_descs[0];
        let desc_tail = att_descs.skip(1);
        let (size, valid_att) = spec_validate_att(att_id, att_desc, rx_atts).unwrap();
        let (_, valid_tail) = spec_validate_atts(desc_tail, rx_atts).unwrap();
        let valid_atts = seq![valid_att] + valid_tail;
        assert(valid_atts[0] == valid_att);
        assert(valid_atts.skip(1) =~= valid_tail);
        assert forall|k: int| 0 <= k < desc_tail.len() implies att_desc_wf(
            #[trigger] desc_tail[k].1,
        ) by {
            assert(desc_tail[k] == att_descs[k + 1]);
        }
        assert forall|k: int|
            0 <= k < desc_tail.len() && spec_find_last(
                rx_atts,
                (#[trigger] desc_tail[k]).0,
            ) is Some implies (spec_validate_att(desc_tail[k].0, desc_tail[k].1, rx_atts)
            matches Ok((size_k, _)) && size_k > 0) by {
            assert(desc_tail[k] == att_descs[k + 1]);
        }
        lemma_fill_validated_atts(desc_tail, rx_atts);
        let raw_tail = spec_fill_atts(desc_tail, valid_tail).unwrap();
        assert(att_descs[0].0 == att_id);
        lemma_find_last(rx_atts, att_id);
        match spec_find_last(rx_atts, att_id) {
            Some(idx) => {
                lemma_fill_validated_att(att_desc, rx_atts[idx].1);
                let raw_att = spec_fill_att_rec(att_desc, valid_att).unwrap();
                let raw_atts = seq![(att_id, raw_att)] + raw_tail;
                assert(raw_atts[0] == (att_id, raw_att));
                assert(raw_atts.skip(1) =~= raw_tail);
            },
            None => {
                let raw_atts = seq![(att_id, absent_raw_att())] + raw_tail;
                assert(raw_atts[0] == (att_id, absent_raw_att()));
                assert(raw_atts.skip(1) =~= raw_tail);
            },
        }
    }
}

/// Validation, then encoding: a raw message that validation accepts gives,
/// once validated and turned back into a raw message under the descriptor of
/// its command, the same header and the same attributes, in the order of the
/// descriptor and with a placeholder added for each absent attribute.
///
/// This holds of a message that is sound and holds no payload size of zero,
/// under a descriptor in which no two attributes of one level have the same
/// id.
pub proof fn lemma_validate_then_encode_valid(table: Map<u16, ProtDesc>, rx_msg: RawMsg)
    requires
        raw_msg_wf(rx_msg),
        raw_atts_no_empty(rx_msg.att_arr),
        spec_validate_msg(table, rx_msg) is Ok,
        spec_find_cmd_desc(table, rx_msg.prot_id, rx_msg.cmd_id) matches Some(cmd_desc)
            ==> att_descs_wf(cmd_desc.att_desc_arr),
    ensures
        spec_find_cmd_desc(table, rx_msg.prot_id, rx_msg.cmd_id) is Some,
        ({
            let (valid_cmd, prot_id) = spec_validate_msg(table, rx_msg).unwrap();
            let cmd_desc = spec_find_cmd_desc(table, rx_msg.prot_id, rx_msg.cmd_id).unwrap();
            &&& prot_id == rx_msg.prot_id
            &&& spec_encode_valid(prot_id, cmd_desc, valid_cmd) matches Some(raw_msg) && {
                &&& raw_msg.prot_id == rx_msg.prot_id
                &&& raw_msg.cmd_id == rx_msg.cmd_id
                &&& raw_msg.att_nb == rx_msg.att_nb
                &&& drop_absent(raw_msg.att_arr) == arrange_atts(
                    cmd_desc.att_desc_arr,
                    rx_msg.att_arr,
                )
            }
        }),
{
    let att_descs = spec_find_cmd_desc(table, rx_msg.prot_id, rx_msg.cmd_id).unwrap().att_desc_arr;
    lemma_accepted_are_counted(att_descs, rx_msg.att_arr);
    lemma_present_is_not_empty(att_descs, rx_msg.att_arr);
    lemma_fill_validated_atts(att_descs, rx_msg.att_arr);
}

// *** What validation gives ***

/// A received attribute that validation accepts with a size that is not zero
/// gives a validated attribute such as comes back when written and read.
///
/// This holds of an attribute that is sound and holds no payload size of
/// zero, under a descriptor that is sound.
pub proof fn lemma_validated_att_canonical(att_desc: AttDesc, rx_att: RawAtt)
    requires
        att_desc_wf(att_desc),
        raw_att_wf(rx_att),
        raw_att_no_empty(rx_att),
        spec_validate_found(att_desc, rx_att) matches Ok((size, _)) && size > 0,
    ensures
        valid_att_canonical(att_desc, spec_validate_found(att_desc, rx_att).unwrap().1),
    decreases att_desc, 0nat,
{
    if att_desc.data_type == LcsfDataType::Subattributes {
        let att_descs = att_desc.subatt_desc_arr;
        let rx_subatts = rx_att.payload->SubattArr_0;
        lemma_accepted_are_counted(att_descs, rx_subatts);
        lemma_present_is_not_empty(att_descs, rx_subatts);
        lemma_validated_atts_canonical(att_descs, rx_subatts);
    }
}

/// The received attributes of one level that validation accepts give
/// validated attributes such as come back when written and read.
///
/// This holds of attributes that are sound and hold no payload size of zero,
/// under descriptors that are sound, where every descriptor that finds an
/// attribute validates it with a size that is not zero.
pub proof fn lemma_validated_atts_canonical(
    att_descs: Seq<(u16, AttDesc)>,
    rx_atts: Seq<(u16, RawAtt)>,
)
    requires
        forall|k: int| 0 <= k < att_descs.len() ==> att_desc_wf(#[trigger] att_descs[k].1),
        raw_atts_wf(rx_atts),
        raw_atts_no_empty(rx_atts),
        spec_validate_atts(att_descs, rx_atts) is Ok,
        found_are_counted(att_descs, rx_atts),
    ensures
        valid_atts_canonical(att_descs, spec_validate_atts(att_descs, rx_atts).unwrap().1),
    decreases att_descs, 1nat,
{
    let (_, valid_atts) = spec_validate_atts(att_descs, rx_atts).unwrap();
    lemma_validate_atts_len(att_descs, rx_atts);
    assert forall|i: int| 0 <= i < att_descs.len() implies valid_att_canonical(
        (#[trigger] att_descs[i]).1,
        valid_atts[i],
    ) by {
        lemma_validate_atts_index(att_descs, rx_atts, i);
        lemma_find_last(rx_atts, att_descs[i].0);
        if let Some(pos) = spec_find_last(rx_atts, att_descs[i].0) {
            lemma_validated_att_canonical(att_descs[i].1, rx_atts[pos].1);
        }
    }
}

/// What validation gives comes back: the validated command of a raw message
/// that validation accepts is such as `lemma_encode_valid_then_validate`
/// asks for.
///
/// This holds of a message that is sound and holds no payload size of zero,
/// under a descriptor in which no two attributes of one level have the same
/// id.
pub proof fn lemma_validated_cmd_canonical(table: Map<u16, ProtDesc>, rx_msg: RawMsg)
    requires
        raw_msg_wf(rx_msg),
        raw_atts_no_empty(rx_msg.att_arr),
        spec_validate_msg(table, rx_msg) is Ok,
        spec_find_cmd_desc(table, rx_msg.prot_id, rx_msg.cmd_id) matches Some(cmd_desc)
            ==> att_descs_wf(cmd_desc.att_desc_arr),
    ensures
        ({
            let (valid_cmd, _) = spec_validate_msg(table, rx_msg).unwrap();
            let cmd_desc = spec_find_cmd_desc(table, rx_msg.prot_id, rx_msg.cmd_id).unwrap();
            &&& valid_atts_canonical(cmd_desc.att_desc_arr, valid_cmd.att_arr)
            &&& spec_cnt_non_empty_att(valid_cmd.att_arr) == rx_msg.att_nb
        }),
{
    let att_descs = spec_find_cmd_desc(table, rx_msg.prot_id, rx_msg.cmd_id).unwrap().att_desc_arr;
    lemma_accepted_are_counted(att_descs, rx_msg.att_arr);
    lemma_present_is_not_empty(att_descs, rx_msg.att_arr);
    lemma_validated_atts_canonical(att_descs, rx_msg.att_arr);
}

// *** Encoding, then validation ***

/// Validation of one descriptor does not see a first received attribute with
/// another id.
proof fn lemma_validate_att_skip(att_id: u16, att_desc: AttDesc, rx_atts: Seq<(u16, RawAtt)>)
    requires
        rx_atts.len() > 0,
        rx_atts[0].0 != att_id,
    ensures
        spec_validate_att(att_id, att_desc, rx_atts) == spec_validate_att(
            att_id,
            att_desc,
            rx_atts.skip(1),
        ),
{
    lemma_find_last_skip(rx_atts, att_id);
    lemma_find_last(rx_atts.skip(1), att_id);
}

/// Validation of a list of descriptors does not see a first received
/// attribute whose id none of them has.
proof fn lemma_validate_atts_skip(att_descs: Seq<(u16, AttDesc)>, rx_atts: Seq<(u16, RawAtt)>)
    requires
        rx_atts.len() > 0,
        forall|k: int| 0 <= k < att_descs.len() ==> att_descs[k].0 != rx_atts[0].0,
    ensures
        spec_validate_atts(att_descs, rx_atts) == spec_validate_atts(att_descs, rx_atts.skip(1)),
    decreases att_descs.len(),
{
    if att_descs.len() > 0 {
        let tail = att_descs.skip(1);
        lemma_validate_att_skip(att_descs[0].0, att_descs[0].1, rx_atts);
        assert forall|k: int| 0 <= k < tail.len() implies tail[k].0 != rx_atts[0].0 by {
            assert(tail[k] == att_descs[k + 1]);
        }
        lemma_validate_atts_skip(tail, rx_atts);
    }
}

/// What is left of filled attributes, once the absent ones are dropped, has
/// ids of the descriptors.
proof fn lemma_filled_ids(
    att_descs: Seq<(u16, AttDesc)>,
    valid_atts: Seq<ValidAtt>,
)
    requires
        spec_fill_atts(att_descs, valid_atts) is Some,
    ensures
        forall|j: int|
            0 <= j < drop_absent(spec_fill_atts(att_descs, valid_atts).unwrap()).len()
                ==> exists|k: int|
                0 <= k < att_descs.len() && att_descs[k].0 == (#[trigger] drop_absent(
                    spec_fill_atts(att_descs, valid_atts).unwrap(),
                )[j]).0,
    decreases att_descs.len(),
{
    let raw_atts = spec_fill_atts(att_descs, valid_atts).unwrap();
    let kept = drop_absent(raw_atts);
    if att_descs.len() > 0 {
        let desc_tail = att_descs.skip(1);
        let raw_att = spec_fill_att_rec(att_descs[0].1, valid_atts[0]).unwrap();
        let raw_tail = spec_fill_atts(desc_tail, valid_atts.skip(1)).unwrap();
        let kept_tail = drop_absent(raw_tail);
        assert(raw_atts[0] == (att_descs[0].0, raw_att));
        assert(raw_atts.skip(1) =~= raw_tail);
        lemma_filled_ids(desc_tail, valid_atts.skip(1));
        assert forall|j: int| 0 <= j < kept.len() implies exists|k: int|
            0 <= k < att_descs.len() && att_descs[k].0 == (#[trigger] kept[j]).0 by {
            if raw_att.payload_size != 0 && j == 0 {
                assert(att_descs[0].0 == kept[0].0);
            } else {
                let shift: int = if raw_att.payload_size != 0 {
                    1
                } else {
                    0
                };
                assert(kept[j] == kept_tail[j - shift]);
                let k = choose|k: int|
                    0 <= k < desc_tail.len() && desc_tail[k].0 == kept_tail[j - shift].0;
                assert(att_descs[k + 1] == desc_tail[k]);
            }
        }
    }
}

/// A validated attribute such as validation can give comes back: filled,
/// then validated, it is itself, with a size that is not zero, where it is
/// not empty.
pub proof fn lemma_validate_filled_att(att_desc: AttDesc, valid_att: ValidAtt)
    requires
        att_desc_wf(att_desc),
        valid_att_canonical(att_desc, valid_att),
        !valid_att_is_empty(valid_att),
    ensures
        spec_fill_att_rec(att_desc, valid_att) matches Some(raw_att) && raw_att.payload_size != 0
            && (spec_validate_found(att_desc, drop_absent_in(raw_att)) matches Ok(
            (size, validated),
        ) && size > 0 && validated == valid_att),
    decreases att_desc, 0nat,
{
    if let ValidPayload::SubattArr(valid_subatts) = valid_att.payload {
        let att_descs = att_desc.subatt_desc_arr;
        lemma_validate_filled_atts(att_descs, valid_subatts);
        let kept = drop_absent(spec_fill_atts(att_descs, valid_subatts).unwrap());
        lemma_validate_atts_len(att_descs, kept);
        lemma_present_at_most_descs(att_descs, kept);
    }
}

/// Validated attributes such as validation can give come back: filled, then
/// freed of the absent ones, then validated, they are themselves, and all
/// that was written is found.
pub proof fn lemma_validate_filled_atts(att_descs: Seq<(u16, AttDesc)>, valid_atts: Seq<ValidAtt>)
    requires
        att_descs_wf(att_descs),
        valid_atts_canonical(att_descs, valid_atts),
    ensures
        spec_fill_atts(att_descs, valid_atts) matches Some(raw_atts) && drop_absent(raw_atts).len()
            == spec_cnt_non_empty_att(valid_atts) && spec_validate_atts(
            att_descs,
            drop_absent(raw_atts),
        ) == Ok::<_, LcsfValidateErrorEnum>(
            (spec_cnt_non_empty_att(valid_atts), valid_atts),
        ),
    decreases att_descs, 1nat,
{
    if att_descs.len() == 0 {
        assert(valid_atts =~= Seq::empty());
    } else {
        let (att_id, att_desc) = att_descs[0];
        let valid_att = valid_atts[0];
        let desc_tail = att_descs.skip(1);
        let valid_tail = valid_atts.skip(1);
        lemma_att_descs_wf_skip(att_descs);
        assert(valid_att_canonical(att_descs[0].1, valid_atts[0]));
        assert forall|i: int| 0 <= i < desc_tail.len() implies valid_att_canonical(
            (#[trigger] desc_tail[i]).1,
            valid_tail[i],
        ) by {
            assert(desc_tail[i] == att_descs[i + 1]);
            assert(valid_tail[i] == valid_atts[i + 1]);
        }
        lemma_validate_filled_atts(desc_tail, valid_tail);
        lemma_fill_att_some(att_desc, valid_att);
        lemma_canonical_is_fillable(att_desc, valid_att);
        let raw_att = spec_fill_att_rec(att_desc, valid_att).unwrap();
        let raw_tail = spec_fill_atts(desc_tail, valid_tail).unwrap();
        let raw_atts = seq![(att_id, raw_att)] + raw_tail;
        let kept_tail = drop_absent(raw_tail);
        assert(raw_atts[0] == (att_id, raw_att));
        assert(raw_atts.skip(1) =~= raw_tail);
        assert(seq![valid_att] + valid_tail =~= valid_atts);
        // No attribute that is left of the tail has the id of the first descriptor.
        lemma_filled_ids(desc_tail, valid_tail);
        assert forall|j: int| 0 <= j < kept_tail.len() implies (#[trigger] kept_tail[j]).0
            != att_id by {
            let k = choose|k: int|
                0 <= k < desc_tail.len() && desc_tail[k].0 == kept_tail[j].0;
            assert(att_descs[k + 1] == desc_tail[k]);
        }
        assert(spec_fill_atts(att_descs, valid_atts) == Some(raw_atts));
        if valid_att_is_empty(valid_att) {
            assert(valid_att.payload->Data_0 =~= Seq::<u8>::empty());
            assert(raw_att == absent_raw_att());
            assert(drop_absent(raw_atts) == kept_tail);
            lemma_find_last_none(kept_tail, att_id);
            assert(spec_validate_att(att_id, att_desc, kept_tail) == Ok::<
                _,
                LcsfValidateErrorEnum,
            >((0nat, valid_att)));
            assert(spec_cnt_non_empty_att(valid_atts) == spec_cnt_non_empty_att(valid_tail));
        } else {
            lemma_validate_filled_att(att_desc, valid_att);
            let kept = seq![(att_id, drop_absent_in(raw_att))] + kept_tail;
            assert(kept[0] == (att_id, drop_absent_in(raw_att)));
            assert(kept.skip(1) =~= kept_tail);
            assert forall|j: int| 0 < j < kept.len() implies kept[j].0 != att_id by {
                assert(kept[j] == kept_tail[j - 1]);
            }
            lemma_find_last_is(kept, att_id, 0);
            assert forall|k: int| 0 <= k < desc_tail.len() implies desc_tail[k].0
                != kept[0].0 by {
                assert(desc_tail[k] == att_descs[k + 1]);
            }
            lemma_validate_atts_skip(desc_tail, kept);
            assert(drop_absent(raw_atts) == kept);
            assert(spec_validate_att(att_id, att_desc, kept) matches Ok((size, validated)) && size
                > 0 && validated == valid_att);
            assert(spec_cnt_non_empty_att(valid_atts) == 1 + spec_cnt_non_empty_att(valid_tail));
        }
    }
}

/// A validated attribute such as validation can give can be written.
pub proof fn lemma_canonical_is_fillable(att_desc: AttDesc, valid_att: ValidAtt)
    requires
        valid_att_canonical(att_desc, valid_att),
    ensures
        valid_att_fillable(att_desc, valid_att),
    decreases att_desc, 0nat,
{
    if let ValidPayload::SubattArr(valid_subatts) = valid_att.payload {
        let att_descs = att_desc.subatt_desc_arr;
        assert forall|i: int| 0 <= i < att_descs.len() implies valid_att_fillable(
            (#[trigger] att_descs[i]).1,
            valid_subatts[i],
        ) by {
            lemma_canonical_is_fillable(att_descs[i].1, valid_subatts[i]);
        }
    }
}

/// Encoding, then validation: a validated command such as validation can
/// give comes back. Turned into a raw message under its descriptor and freed
/// of the placeholders, as encoding does, it is valid and gives the command.
///
/// This holds under a table that holds the descriptor under the protocol id,
/// where no two attributes of one level of the descriptor have the same id.
pub proof fn lemma_encode_valid_then_validate(
    table: Map<u16, ProtDesc>,
    prot_id: u16,
    valid_cmd: ValidCmd,
)
    requires
        spec_find_cmd_desc(table, prot_id, valid_cmd.cmd_id) matches Some(cmd_desc) && att_descs_wf(
            cmd_desc.att_desc_arr,
        ) && valid_atts_canonical(cmd_desc.att_desc_arr, valid_cmd.att_arr)
            && spec_cnt_non_empty_att(valid_cmd.att_arr) <= u16::MAX,
    ensures
        ({
            let cmd_desc = spec_find_cmd_desc(table, prot_id, valid_cmd.cmd_id).unwrap();
            spec_encode_valid(prot_id, cmd_desc, valid_cmd) matches Some(raw_msg)
                && spec_validate_msg(
                table,
                RawMsg {
                    prot_id: raw_msg.prot_id,
                    cmd_id: raw_msg.cmd_id,
                    att_nb: raw_msg.att_nb,
                    att_arr: drop_absent(raw_msg.att_arr),
                },
            ) == Ok::<_, LcsfValidateErrorEnum>((valid_cmd, prot_id))
        }),
{
    let cmd_desc = spec_find_cmd_desc(table, prot_id, valid_cmd.cmd_id).unwrap();
    lemma_validate_filled_atts(cmd_desc.att_desc_arr, valid_cmd.att_arr);
    let raw_atts = spec_fill_atts(cmd_desc.att_desc_arr, valid_cmd.att_arr).unwrap();
    lemma_present_at_most_descs(cmd_desc.att_desc_arr, drop_absent(raw_atts));
}

// *** What is written can be read ***

/// A validated attribute such as validation can give is written, absent
/// sub-attributes dropped, as a raw attribute that is sound and fits the
/// mode, where ids and sizes fit the mode.
pub proof fn lemma_filled_att_sound(
    mode: LcsfModeEnum,
    att_id: u16,
    att_desc: AttDesc,
    valid_att: ValidAtt,
)
    requires
        att_desc_wf(att_desc),
        att_id < subatt_flag(mode),
        att_desc.data_type == LcsfDataType::Subattributes ==> att_descs_fit(
            mode,
            att_desc.subatt_desc_arr,
        ),
        valid_att_canonical(att_desc, valid_att),
        !valid_att_is_empty(valid_att),
        match valid_att.payload {
            ValidPayload::Data(data) => data.len() <= field_max(mode),
            ValidPayload::SubattArr(valid_subatts) => spec_cnt_non_empty_att(valid_subatts)
                <= field_max(mode) && valid_atts_fit(mode, valid_subatts),
        },
    ensures
        spec_fill_att_rec(att_desc, valid_att) matches Some(raw_att) && raw_att_wf(
            drop_absent_in(raw_att),
        ) && raw_att_fits(mode, att_id, drop_absent_in(raw_att)),
    decreases att_desc, 0nat,
{
    lemma_validate_filled_att(att_desc, valid_att);
    if let ValidPayload::SubattArr(valid_subatts) = valid_att.payload {
        lemma_validate_filled_atts(att_desc.subatt_desc_arr, valid_subatts);
        lemma_filled_atts_sound(mode, att_desc.subatt_desc_arr, valid_subatts);
    }
}

/// Validated attributes such as validation can give are written, absent ones
/// dropped, as raw attributes that are sound and fit the mode, where ids and
/// sizes fit the mode.
pub proof fn lemma_filled_atts_sound(
    mode: LcsfModeEnum,
    att_descs: Seq<(u16, AttDesc)>,
    valid_atts: Seq<ValidAtt>,
)
    requires
        att_descs_wf(att_descs),
        att_descs_fit(mode, att_descs),
        valid_atts_canonical(att_descs, valid_atts),
        valid_atts_fit(mode, valid_atts),
    ensures
        spec_fill_atts(att_descs, valid_atts) matches Some(raw_atts) && raw_atts_wf(
            drop_absent(raw_atts),
        ) && raw_atts_fit(mode, drop_absent(raw_atts)),
    decreases att_descs, 1nat,
{
    lemma_validate_filled_atts(att_descs, valid_atts);
    if att_descs.len() > 0 {
        let (att_id, att_desc) = att_descs[0];
        let valid_att = valid_atts[0];
        let desc_tail = att_descs.skip(1);
        let valid_tail = valid_atts.skip(1);
        lemma_att_descs_wf_skip(att_descs);
        assert(valid_att_canonical(att_descs[0].1, valid_atts[0]));
        assert(att_descs[0].0 < subatt_flag(mode));
        assert forall|i: int| 0 <= i < desc_tail.len() implies valid_att_canonical(
            (#[trigger] desc_tail[i]).1,
            valid_tail[i],
        ) by {
            assert(desc_tail[i] == att_descs[i + 1]);
            assert(valid_tail[i] == valid_atts[i + 1]);
        }
        assert forall|i: int| 0 <= i < desc_tail.len() implies {
            &&& (#[trigger] desc_tail[i]).0 < subatt_flag(mode)
            &&& desc_tail[i].1.data_type == LcsfDataType::Subattributes ==> att_descs_fit(
                mode,
                desc_tail[i].1.subatt_desc_arr,
            )
        } by {
            assert(desc_tail[i] == att_descs[i + 1]);
        }
        assert(valid_atts_fit(mode, valid_tail)) by {
            assert forall|i: int| 0 <= i < valid_tail.len() implies match (
                #[trigger] valid_tail[i]
            ).payload {
                ValidPayload::Data(data) => data.len() <= field_max(mode),
                ValidPayload::SubattArr(valid_subatts) => spec_cnt_non_empty_att(valid_subatts)
                    <= field_max(mode) && valid_atts_fit(mode, valid_subatts),
            } by {
                assert(valid_tail[i] == valid_atts[i + 1]);
            }
        }
        lemma_filled_atts_sound(mode, desc_tail, valid_tail);
        lemma_canonical_is_fillable(att_desc, valid_att);
        lemma_fill_att_some(att_desc, valid_att);
        let raw_att = spec_fill_att_rec(att_desc, valid_att).unwrap();
        let raw_tail = spec_fill_atts(desc_tail, valid_tail).unwrap();
        let raw_atts = seq![(att_id, raw_att)] + raw_tail;
        let kept_tail = drop_absent(raw_tail);
        assert(raw_atts[0] == (att_id, raw_att));
        assert(raw_atts.skip(1) =~= raw_tail);
        if valid_att_is_empty(valid_att) {
            assert(raw_att == absent_raw_att());
            assert(drop_absent(raw_atts) == kept_tail);
        } else {
            assert(valid_atts[0] == valid_att);
            lemma_validate_filled_att(att_desc, valid_att);
            lemma_filled_att_sound(mode, att_id, att_desc, valid_att);
            let kept = seq![(att_id, drop_absent_in(raw_att))] + kept_tail;
            assert(drop_absent(raw_atts) == kept);
            assert forall|j: int| 0 <= j < kept.len() implies raw_att_wf(#[trigger] kept[j].1)
                && raw_att_fits(mode, kept[j].0, kept[j].1) by {
                if j > 0 {
                    assert(kept[j] == kept_tail[j - 1]);
                }
            }
        }
    }
}

// *** Attributes in the order of the descriptor ***

/// Attributes that come in the order of their descriptors have ids of those
/// descriptors.
pub proof fn lemma_in_order_ids(att_descs: Seq<(u16, AttDesc)>, rx_atts: Seq<(u16, RawAtt)>)
    requires
        raw_atts_in_order(att_descs, rx_atts),
    ensures
        forall|j: int|
            0 <= j < rx_atts.len() ==> exists|k: int|
                0 <= k < att_descs.len() && att_descs[k].0 == (#[trigger] rx_atts[j]).0,
    decreases att_descs.len(),
{
    if rx_atts.len() > 0 {
        let desc_tail = att_descs.skip(1);
        if att_descs[0].0 == rx_atts[0].0 {
            let rx_tail = rx_atts.skip(1);
            lemma_in_order_ids(desc_tail, rx_tail);
            assert forall|j: int| 0 <= j < rx_atts.len() implies exists|k: int|
                0 <= k < att_descs.len() && att_descs[k].0 == (#[trigger] rx_atts[j]).0 by {
                if j == 0 {
                    assert(att_descs[0].0 == rx_atts[0].0);
                } else {
                    assert(rx_atts[j] == rx_tail[j - 1]);
                    let k = choose|k: int|
                        0 <= k < desc_tail.len() && desc_tail[k].0 == rx_tail[j - 1].0;
                    assert(att_descs[k + 1] == desc_tail[k]);
                }
            }
        } else {
            lemma_in_order_ids(desc_tail, rx_atts);
            assert forall|j: int| 0 <= j < rx_atts.len() implies exists|k: int|
                0 <= k < att_descs.len() && att_descs[k].0 == (#[trigger] rx_atts[j]).0 by {
                let k = choose|k: int| 0 <= k < desc_tail.len() && desc_tail[k].0 == rx_atts[j].0;
                assert(att_descs[k + 1] == desc_tail[k]);
            }
        }
    }
}

/// No descriptor after the first has an id of attributes that come in the
/// order of the descriptors after the first.
proof fn lemma_first_id_not_in_rest(
    att_descs: Seq<(u16, AttDesc)>,
    rx_atts: Seq<(u16, RawAtt)>,
)
    requires
        att_descs.len() > 0,
        ids_unique(att_descs),
        raw_atts_in_order(att_descs.skip(1), rx_atts),
    ensures
        forall|j: int| 0 <= j < rx_atts.len() ==> (#[trigger] rx_atts[j]).0 != att_descs[0].0,
{
    let desc_tail = att_descs.skip(1);
    lemma_in_order_ids(desc_tail, rx_atts);
    assert forall|j: int| 0 <= j < rx_atts.len() implies (#[trigger] rx_atts[j]).0
        != att_descs[0].0 by {
        let k = choose|k: int| 0 <= k < desc_tail.len() && desc_tail[k].0 == rx_atts[j].0;
        assert(att_descs[k + 1] == desc_tail[k]);
    }
}

/// A tail of sound descriptors is sound.
proof fn lemma_att_descs_wf_skip(att_descs: Seq<(u16, AttDesc)>)
    requires
        att_descs.len() > 0,
        att_descs_wf(att_descs),
    ensures
        att_descs_wf(att_descs.skip(1)),
        att_desc_wf(att_descs[0].1),
{
    let tail = att_descs.skip(1);
    assert forall|i: int, j: int| 0 <= i < j < tail.len() implies tail[i].0 != tail[j].0 by {
        assert(tail[i] == att_descs[i + 1]);
        assert(tail[j] == att_descs[j + 1]);
    }
    assert forall|i: int| 0 <= i < tail.len() implies att_desc_wf(#[trigger] tail[i].1) by {
        assert(tail[i] == att_descs[i + 1]);
    }
}

/// Arranging does not see a first received attribute whose id no descriptor
/// has.
proof fn lemma_arrange_atts_skip(att_descs: Seq<(u16, AttDesc)>, rx_atts: Seq<(u16, RawAtt)>)
    requires
        rx_atts.len() > 0,
        forall|k: int| 0 <= k < att_descs.len() ==> att_descs[k].0 != rx_atts[0].0,
    ensures
        arrange_atts(att_descs, rx_atts) == arrange_atts(att_descs, rx_atts.skip(1)),
    decreases att_descs.len(),
{
    if att_descs.len() > 0 {
        let tail = att_descs.skip(1);
        lemma_find_last_skip(rx_atts, att_descs[0].0);
        lemma_find_last(rx_atts.skip(1), att_descs[0].0);
        assert forall|k: int| 0 <= k < tail.len() implies tail[k].0 != rx_atts[0].0 by {
            assert(tail[k] == att_descs[k + 1]);
        }
        lemma_arrange_atts_skip(tail, rx_atts);
    }
}

/// An attribute whose sub-attributes come in the order of their descriptors
/// is left as it is by arranging.
pub proof fn lemma_arrange_att_in_order(att_desc: AttDesc, rx_att: RawAtt)
    requires
        att_desc_wf(att_desc),
        raw_att_wf(rx_att),
        raw_att_in_order(att_desc, rx_att),
    ensures
        arrange_att(att_desc, rx_att) == rx_att,
    decreases att_desc, 0nat,
{
    if let RawPayload::SubattArr(rx_subatts) = rx_att.payload {
        if att_desc.data_type == LcsfDataType::Subattributes {
            lemma_arrange_atts_in_order(att_desc.subatt_desc_arr, rx_subatts);
        }
    }
}

/// Attributes that come in the order of their descriptors are left as they
/// are by arranging.
pub proof fn lemma_arrange_atts_in_order(
    att_descs: Seq<(u16, AttDesc)>,
    rx_atts: Seq<(u16, RawAtt)>,
)
    requires
        att_descs_wf(att_descs),
        raw_atts_wf(rx_atts),
        raw_atts_in_order(att_descs, rx_atts),
    ensures
        arrange_atts(att_descs, rx_atts) == rx_atts,
    decreases att_descs, 1nat,
{
    if att_descs.len() == 0 {
        assert(rx_atts =~= Seq::empty());
    } else {
        let (att_id, att_desc) = att_descs[0];
        let desc_tail = att_descs.skip(1);
        lemma_att_descs_wf_skip(att_descs);
        if rx_atts.len() > 0 && att_id == rx_atts[0].0 {
            let rx_tail = rx_atts.skip(1);
            assert forall|i: int| 0 <= i < rx_tail.len() implies raw_att_wf(
                #[trigger] rx_tail[i].1,
            ) by {
                assert(rx_tail[i] == rx_atts[i + 1]);
            }
            lemma_first_id_not_in_rest(att_descs, rx_tail);
            assert forall|j: int| 0 < j < rx_atts.len() implies rx_atts[j].0 != att_id by {
                assert(rx_atts[j] == rx_tail[j - 1]);
            }
            lemma_find_last_is(rx_atts, att_id, 0);
            assert forall|k: int| 0 <= k < desc_tail.len() implies desc_tail[k].0
                != rx_atts[0].0 by {
                assert(desc_tail[k] == att_descs[k + 1]);
            }
            lemma_arrange_atts_skip(desc_tail, rx_atts);
            lemma_arrange_att_in_order(att_desc, rx_atts[0].1);
            lemma_arrange_atts_in_order(desc_tail, rx_tail);
            assert(seq![rx_atts[0]] + rx_tail =~= rx_atts);
        } else {
            lemma_first_id_not_in_rest(att_descs, rx_atts);
            lemma_find_last_none(rx_atts, att_id);
            lemma_arrange_atts_in_order(desc_tail, rx_atts);
        }
    }
}

/// Validation, then encoding, of a message in the order of its descriptor:
/// under the conditions of `lemma_validate_then_encode_valid`, a message
/// whose attributes come in the order of their descriptors at every level
/// comes back as it is, but for the placeholders of the absent attributes.
pub proof fn lemma_validate_then_encode_valid_in_order(table: Map<u16, ProtDesc>, rx_msg: RawMsg)
    requires
        raw_msg_wf(rx_msg),
        raw_atts_no_empty(rx_msg.att_arr),
        spec_validate_msg(table, rx_msg) is Ok,
        spec_find_cmd_desc(table, rx_msg.prot_id, rx_msg.cmd_id) matches Some(cmd_desc)
            ==> att_descs_wf(cmd_desc.att_desc_arr) && raw_atts_in_order(
            cmd_desc.att_desc_arr,
            rx_msg.att_arr,
        ),
    ensures
        ({
            let (valid_cmd, prot_id) = spec_validate_msg(table, rx_msg).unwrap();
            let cmd_desc = spec_find_cmd_desc(table, rx_msg.prot_id, rx_msg.cmd_id).unwrap();
            spec_encode_valid(prot_id, cmd_desc, valid_cmd) matches Some(raw_msg) && {
                &&& raw_msg.prot_id == rx_msg.prot_id
                &&& raw_msg.cmd_id == rx_msg.cmd_id
                &&& raw_msg.att_nb == rx_msg.att_nb
                &&& drop_absent(raw_msg.att_arr) == rx_msg.att_arr
            }
        }),
{
    let cmd_desc = spec_find_cmd_desc(table, rx_msg.prot_id, rx_msg.cmd_id).unwrap();
    lemma_validate_then_encode_valid(table, rx_msg);
    lemma_arrange_atts_in_order(cmd_desc.att_desc_arr, rx_msg.att_arr);
}

// *** On the wire ***

/// A raw message with its attributes in the order of their descriptors.
pub open spec fn arrange_msg(att_descs: Seq<(u16, AttDesc)>, rx_msg: RawMsg) -> RawMsg {
    RawMsg {
        prot_id: rx_msg.prot_id,
        cmd_id: rx_msg.cmd_id,
        att_nb: rx_msg.att_nb,
        att_arr: arrange_atts(att_descs, rx_msg.att_arr),
    }
}

/// Validation, then encoding, on the wire: under the conditions of
/// `lemma_validate_then_encode_valid`, the raw message that comes back
/// encodes to the same bytes as the message that was validated, its
/// attributes put in the order of their descriptors.
pub proof fn lemma_validate_then_encode_bytes(
    mode: LcsfModeEnum,
    table: Map<u16, ProtDesc>,
    rx_msg: RawMsg,
)
    requires
        raw_msg_wf(rx_msg),
        raw_atts_no_empty(rx_msg.att_arr),
        spec_validate_msg(table, rx_msg) is Ok,
        spec_find_cmd_desc(table, rx_msg.prot_id, rx_msg.cmd_id) matches Some(cmd_desc)
            ==> att_descs_wf(cmd_desc.att_desc_arr),
    ensures
        ({
            let (valid_cmd, prot_id) = spec_validate_msg(table, rx_msg).unwrap();
            let cmd_desc = spec_find_cmd_desc(table, rx_msg.prot_id, rx_msg.cmd_id).unwrap();
            spec_encode_valid(prot_id, cmd_desc, valid_cmd) matches Some(raw_msg)
                && spec_encode_buff(mode, raw_msg) == spec_encode_buff(
                mode,
                arrange_msg(cmd_desc.att_desc_arr, rx_msg),
            )
        }),
{
    lemma_validate_then_encode_valid(table, rx_msg);
    let (valid_cmd, prot_id) = spec_validate_msg(table, rx_msg).unwrap();
    let cmd_desc = spec_find_cmd_desc(table, rx_msg.prot_id, rx_msg.cmd_id).unwrap();
    let raw_msg = spec_encode_valid(prot_id, cmd_desc, valid_cmd).unwrap();
    lemma_encode_atts_drops_absent(mode, raw_msg.att_arr);
}

/// Validation, then encoding, on the wire, of a message in the order of its
/// descriptor: under the conditions of
/// `lemma_validate_then_encode_valid_in_order`, the raw message that comes
/// back encodes to the same bytes as the message that was validated.
pub proof fn lemma_validate_then_encode_bytes_in_order(
    mode: LcsfModeEnum,
    table: Map<u16, ProtDesc>,
    rx_msg: RawMsg,
)
    requires
        raw_msg_wf(rx_msg),
        raw_atts_no_empty(rx_msg.att_arr),
        spec_validate_msg(table, rx_msg) is Ok,
        spec_find_cmd_desc(table, rx_msg.prot_id, rx_msg.cmd_id) matches Some(cmd_desc)
            ==> att_descs_wf(cmd_desc.att_desc_arr) && raw_atts_in_order(
            cmd_desc.att_desc_arr,
            rx_msg.att_arr,
        ),
    ensures
        ({
            let (valid_cmd, prot_id) = spec_validate_msg(table, rx_msg).unwrap();
            let cmd_desc = spec_find_cmd_desc(table, rx_msg.prot_id, rx_msg.cmd_id).unwrap();
            spec_encode_valid(prot_id, cmd_desc, valid_cmd) matches Some(raw_msg)
                && spec_encode_buff(mode, raw_msg) == spec_encode_buff(mode, rx_msg)
        }),
{
    let cmd_desc = spec_find_cmd_desc(table, rx_msg.prot_id, rx_msg.cmd_id).unwrap();
    lemma_validate_then_encode_bytes(mode, table, rx_msg);
    lemma_arrange_atts_in_order(cmd_desc.att_desc_arr, rx_msg.att_arr);
    assert(arrange_msg(cmd_desc.att_desc_arr, rx_msg) == rx_msg);
}

} // verus!
