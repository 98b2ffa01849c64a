//! When validation accepts: a raw message is accepted exactly where its
//! attributes suit the descriptor of its command.

use crate::lcsf_transcoder::{RawAtt, RawMsg};
use crate::lcsf_validator::{
    att_desc_wf, att_descs_wf, ids_unique, lemma_find_last, raw_att_conforms, raw_atts_conform,
    spec_find_cmd_desc, spec_find_last, spec_validate_att, spec_validate_atts,
    spec_validate_found, spec_validate_msg, AttDesc, LcsfDataType, ProtDesc,
};
use crate::lcsf_validator_proof::{
    lemma_find_last_is, lemma_found_empty_is_not_counted, lemma_present_at_most_received,
    lemma_present_misses_duplicate, lemma_validate_atts_index, lemma_validate_atts_len,
};
use vstd::prelude::*;
use vstd::set_lib::{lemma_int_range, set_int_range};

verus! {

/// Whether validation finds all the received attributes of one level.
pub open spec fn accepted_atts(att_descs: Seq<(u16, AttDesc)>, rx_atts: Seq<(u16, RawAtt)>)
    -> bool {
    spec_validate_atts(att_descs, rx_atts) matches Ok((present, _)) && present >= rx_atts.len()
}

// *** What is accepted suits the descriptor ***

/// A received attribute that validation accepts with a size that is not zero
/// suits its descriptor.
pub proof fn lemma_accepted_att_conforms(att_desc: AttDesc, rx_att: RawAtt)
    requires
        att_desc_wf(att_desc),
        spec_validate_found(att_desc, rx_att) matches Ok((size, _)) && size > 0,
    ensures
        raw_att_conforms(att_desc, rx_att),
    decreases att_desc, 0nat,
{
    if att_desc.data_type == LcsfDataType::Subattributes {
        let rx_subatts = rx_att.payload->SubattArr_0;
        lemma_validate_atts_len(att_desc.subatt_desc_arr, rx_subatts);
        lemma_accepted_atts_conform(att_desc.subatt_desc_arr, rx_subatts);
    }
}

/// The received attributes of one level that validation accepts suit the
/// descriptors of that level.
pub proof fn lemma_accepted_atts_conform(
    att_descs: Seq<(u16, AttDesc)>,
    rx_atts: Seq<(u16, RawAtt)>,
)
    requires
        att_descs_wf(att_descs),
        accepted_atts(att_descs, rx_atts),
    ensures
        raw_atts_conform(att_descs, rx_atts),
    decreases att_descs, 1nat,
{
    lemma_present_at_most_received(att_descs, rx_atts);
    assert forall|i: int, j: int| 0 <= i < j < rx_atts.len() implies rx_atts[i].0
        != rx_atts[j].0 by {
        if rx_atts[i].0 == rx_atts[j].0 {
            lemma_present_misses_duplicate(att_descs, rx_atts, i, j);
        }
    }
    assert forall|k: int| 0 <= k < att_descs.len() implies match spec_find_last(
        rx_atts,
        (#[trigger] att_descs[k]).0,
    ) {
        None => att_descs[k].1.is_optional,
        Some(pos) => raw_att_conforms(att_descs[k].1, rx_atts[pos].1),
    } by {
        lemma_validate_atts_index(att_descs, rx_atts, k);
        lemma_find_last(rx_atts, att_descs[k].0);
        if let Some(pos) = spec_find_last(rx_atts, att_descs[k].0) {
            let (size, _) = spec_validate_att(att_descs[k].0, att_descs[k].1, rx_atts).unwrap();
            if size == 0 {
                lemma_found_empty_is_not_counted(att_descs, rx_atts, k);
            }
            lemma_accepted_att_conforms(att_descs[k].1, rx_atts[pos].1);
        }
    }
}

// *** What suits the descriptor is accepted ***

/// Validation counts no more attributes than there are descriptors.
pub proof fn lemma_present_at_most_descs(
    att_descs: Seq<(u16, AttDesc)>,
    rx_atts: Seq<(u16, RawAtt)>,
)
    ensures
        spec_validate_atts(att_descs, rx_atts) matches Ok((present, _)) ==> present
            <= att_descs.len(),
    decreases att_descs.len(),
{
    if att_descs.len() > 0 {
        let first = spec_validate_att(att_descs[0].0, att_descs[0].1, rx_atts);
        lemma_present_at_most_descs(att_descs.skip(1), rx_atts);
    }
}

/// Where each descriptor finds nothing wrong, validation finds nothing wrong.
pub proof fn lemma_validate_atts_all_ok(att_descs: Seq<(u16, AttDesc)>, rx_atts: Seq<(u16, RawAtt)>)
    requires
        forall|k: int|
            0 <= k < att_descs.len() ==> spec_validate_att(
                (#[trigger] att_descs[k]).0,
                att_descs[k].1,
                rx_atts,
            ) is Ok,
    ensures
        spec_validate_atts(att_descs, rx_atts) is Ok,
    decreases att_descs.len(),
{
    if att_descs.len() > 0 {
        let tail = att_descs.skip(1);
        assert(att_descs[0] == att_descs[0]);
        assert forall|k: int| 0 <= k < tail.len() implies spec_validate_att(
            (#[trigger] tail[k]).0,
            tail[k].1,
            rx_atts,
        ) is Ok by {
            assert(tail[k] == att_descs[k + 1]);
        }
        lemma_validate_atts_all_ok(tail, rx_atts);
    }
}

/// Validation counts at least as many attributes as a set of positions holds,
/// where each position of the set is that of an attribute that a descriptor
/// finds and validates with a size that is not zero. No descriptor finds two
/// attributes, and no two descriptors have the same id.
pub proof fn lemma_present_covers(
    att_descs: Seq<(u16, AttDesc)>,
    rx_atts: Seq<(u16, RawAtt)>,
    positions: Set<int>,
)
    requires
        ids_unique(att_descs),
        positions.finite(),
        spec_validate_atts(att_descs, rx_atts) is Ok,
        forall|pos: int| #[trigger]
            positions.contains(pos) ==> exists|k: int|
                0 <= k < att_descs.len() && spec_find_last(rx_atts, (#[trigger] att_descs[k]).0)
                    == Some(pos) && (spec_validate_att(att_descs[k].0, att_descs[k].1, rx_atts)
                    matches Ok((size, _)) && size > 0),
    ensures
        spec_validate_atts(att_descs, rx_atts).unwrap().0 >= positions.len(),
    decreases att_descs.len(),
{
    if att_descs.len() == 0 {
        assert(positions =~= Set::empty());
    } else {
        let (att_id, att_desc) = att_descs[0];
        let tail = att_descs.skip(1);
        let (size, _) = spec_validate_att(att_id, att_desc, rx_atts).unwrap();
        let left = match spec_find_last(rx_atts, att_id) {
            Some(first_pos) => positions.remove(first_pos),
            None => positions,
        };
        assert forall|i: int, j: int| 0 <= i < j < tail.len() implies tail[i].0 != tail[j].0 by {
            assert(tail[i] == att_descs[i + 1]);
            assert(tail[j] == att_descs[j + 1]);
        }
        assert forall|pos: int| #[trigger] left.contains(pos) implies exists|k: int|
            0 <= k < tail.len() && spec_find_last(rx_atts, (#[trigger] tail[k]).0) == Some(pos)
                && (spec_validate_att(tail[k].0, tail[k].1, rx_atts) matches Ok((size_k, _))
                && size_k > 0) by {
            assert(positions.contains(pos));
            let k = choose|k: int|
                0 <= k < att_descs.len() && spec_find_last(rx_atts, (#[trigger] att_descs[k]).0)
                    == Some(pos) && (spec_validate_att(att_descs[k].0, att_descs[k].1, rx_atts)
                    matches Ok((size_k, _)) && size_k > 0);
            assert(k > 0);
            assert(tail[k - 1] == att_descs[k]);
        }
        lemma_present_covers(tail, rx_atts, left);
        if let Some(first_pos) = spec_find_last(rx_atts, att_id) {
            if positions.contains(first_pos) {
                let k = choose|k: int|
                    0 <= k < att_descs.len() && spec_find_last(
                        rx_atts,
                        (#[trigger] att_descs[k]).0,
                    ) == Some(first_pos) && (spec_validate_att(
                        att_descs[k].0,
                        att_descs[k].1,
                        rx_atts,
                    ) matches Ok((size_k, _)) && size_k > 0);
                lemma_find_last(rx_atts, att_descs[k].0);
                lemma_find_last(rx_atts, att_id);
                assert(k == 0);
            }
        }
    }
}

/// A received attribute that suits its descriptor is accepted with a size
/// that is not zero.
pub proof fn lemma_conforming_att_accepted(att_desc: AttDesc, rx_att: RawAtt)
    requires
        att_desc_wf(att_desc),
        raw_att_conforms(att_desc, rx_att),
    ensures
        spec_validate_found(att_desc, rx_att) matches Ok((size, _)) && size > 0,
    decreases att_desc, 0nat,
{
    if att_desc.data_type == LcsfDataType::Subattributes {
        let rx_subatts = rx_att.payload->SubattArr_0;
        lemma_conforming_atts_accepted(att_desc.subatt_desc_arr, rx_subatts);
        lemma_present_at_most_descs(att_desc.subatt_desc_arr, rx_subatts);
        lemma_validate_atts_len(att_desc.subatt_desc_arr, rx_subatts);
    }
}

/// The received attributes of one level that suit the descriptors of that
/// level are accepted.
pub proof fn lemma_conforming_atts_accepted(
    att_descs: Seq<(u16, AttDesc)>,
    rx_atts: Seq<(u16, RawAtt)>,
)
    requires
        att_descs_wf(att_descs),
        raw_atts_conform(att_descs, rx_atts),
    ensures
        accepted_atts(att_descs, rx_atts),
    decreases att_descs, 1nat,
{
    assert forall|k: int| 0 <= k < att_descs.len() implies (spec_validate_att(
        (#[trigger] att_descs[k]).0,
        att_descs[k].1,
        rx_atts,
    ) matches Ok((size, _)) && (spec_find_last(rx_atts, att_descs[k].0) is Some ==> size > 0)) by {
        lemma_find_last(rx_atts, att_descs[k].0);
        if let Some(pos) = spec_find_last(rx_atts, att_descs[k].0) {
            lemma_conforming_att_accepted(att_descs[k].1, rx_atts[pos].1);
        }
    }
    lemma_validate_atts_all_ok(att_descs, rx_atts);
    let all = set_int_range(0, rx_atts.len() as int);
    lemma_int_range(0, rx_atts.len() as int);
    assert forall|pos: int| #[trigger] all.contains(pos) implies exists|k: int|
        0 <= k < att_descs.len() && spec_find_last(rx_atts, (#[trigger] att_descs[k]).0) == Some(
            pos,
        ) && (spec_validate_att(att_descs[k].0, att_descs[k].1, rx_atts) matches Ok((size, _))
            && size > 0) by {
        let id = rx_atts[pos].0;
        lemma_find_last(att_descs, id);
        let k = spec_find_last(att_descs, id).unwrap();
        assert forall|j: int| pos < j < rx_atts.len() implies rx_atts[j].0 != id by {}
        lemma_find_last_is(rx_atts, id, pos);
        assert(att_descs[k].0 == id);
    }
    lemma_present_covers(att_descs, rx_atts, all);
}

// *** Both ways ***

/// Validation accepts the received attributes of one level exactly where they
/// suit the descriptors of that level, under descriptors that are sound.
pub proof fn lemma_accepted_iff_conform(att_descs: Seq<(u16, AttDesc)>, rx_atts: Seq<(u16, RawAtt)>)
    requires
        att_descs_wf(att_descs),
    ensures
        accepted_atts(att_descs, rx_atts) <==> raw_atts_conform(att_descs, rx_atts),
{
    if accepted_atts(att_descs, rx_atts) {
        lemma_accepted_atts_conform(att_descs, rx_atts);
    }
    if raw_atts_conform(att_descs, rx_atts) {
        lemma_conforming_atts_accepted(att_descs, rx_atts);
    }
}

/// When success is owed: validation accepts a raw message exactly where the
/// table holds its protocol, the protocol's descriptor holds its command, and
/// its attributes suit the command's descriptor. This holds where no two
/// attributes of one level of the command's descriptor have the same id.
pub proof fn lemma_validate_ok_iff_conforms(table: Map<u16, ProtDesc>, rx_msg: RawMsg)
    requires
        spec_find_cmd_desc(table, rx_msg.prot_id, rx_msg.cmd_id) matches Some(cmd_desc)
            ==> att_descs_wf(cmd_desc.att_desc_arr),
    ensures
        spec_validate_msg(table, rx_msg) is Ok <==> (spec_find_cmd_desc(
            table,
            rx_msg.prot_id,
            rx_msg.cmd_id,
        ) matches Some(cmd_desc) && raw_atts_conform(cmd_desc.att_desc_arr, rx_msg.att_arr)),
{
    if let Some(cmd_desc) = spec_find_cmd_desc(table, rx_msg.prot_id, rx_msg.cmd_id) {
        lemma_accepted_iff_conform(cmd_desc.att_desc_arr, rx_msg.att_arr);
        lemma_present_at_most_descs(cmd_desc.att_desc_arr, rx_msg.att_arr);
    }
}

} // verus!
