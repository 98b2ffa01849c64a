//! What holds of the wire format: decoding gives sound messages, decoding and
//! writing in full undo each other, and so do decoding and encoding where no
//! payload size is zero.

use crate::lcsf_transcoder::{
    att_header_size, drop_absent, drop_absent_in, field_max, field_size, msg_header_size,
    raw_att_depth, raw_att_fits, raw_att_no_empty, raw_att_wf, raw_atts_depth, raw_atts_fit,
    raw_atts_no_empty, raw_atts_wf, raw_msg_fits, raw_msg_wf, spec_decode_att, spec_decode_atts,
    spec_decode_buff, spec_encode_att, spec_encode_atts, spec_encode_buff,
    spec_fetch_att_header, spec_fetch_msg_header, spec_field, spec_field_bytes,
    spec_fill_att_header, spec_fill_msg_header, spec_flagged_id, spec_wire_att, spec_wire_atts,
    spec_wire_buff, subatt_flag, LcsfModeEnum, RawAtt, RawMsg, RawPayload,
};
use vstd::prelude::*;

verus! {

// *** Decoding gives sound messages ***

/// A field read from a buffer fits the field.
pub proof fn lemma_field_fits(mode: LcsfModeEnum, bytes: Seq<u8>, idx: int)
    ensures
        spec_field(mode, bytes, idx) <= field_max(mode),
        mode == LcsfModeEnum::Normal ==> spec_field(mode, bytes, idx) == bytes[2 * idx] + 256
            * bytes[2 * idx + 1],
{
}

/// A decoded attribute takes at least its header and at most the bytes that
/// there are, is sound and fits the mode.
pub proof fn lemma_decode_att_sound(mode: LcsfModeEnum, bytes: Seq<u8>)
    ensures
        spec_decode_att(mode, bytes) matches Some((att_id, att, used)) ==> {
            &&& att_header_size(mode) <= used <= bytes.len()
            &&& raw_att_wf(att)
            &&& raw_att_fits(mode, att_id, att)
        },
    decreases bytes.len(), 0nat,
{
    if let Some((att_id, head)) = spec_fetch_att_header(mode, bytes) {
        lemma_field_fits(mode, bytes, 0);
        lemma_field_fits(mode, bytes, 1);
        if head.has_subatt {
            lemma_decode_atts_sound(
                mode,
                bytes.skip(att_header_size(mode) as int),
                head.payload_size as nat,
            );
        }
    }
}

/// Decoded attributes are as many as were asked for, take at least their
/// headers and at most the bytes that there are, are sound and fit the mode.
pub proof fn lemma_decode_atts_sound(mode: LcsfModeEnum, bytes: Seq<u8>, count: nat)
    ensures
        spec_decode_atts(mode, bytes, count) matches Some((atts, used)) ==> {
            &&& atts.len() == count
            &&& count * att_header_size(mode) <= used <= bytes.len()
            &&& raw_atts_wf(atts)
            &&& raw_atts_fit(mode, atts)
        },
    decreases bytes.len(), 1 + count,
{
    if count > 0 {
        lemma_decode_att_sound(mode, bytes);
        if let Some((att_id, att, used)) = spec_decode_att(mode, bytes) {
            lemma_decode_atts_sound(mode, bytes.skip(used as int), (count - 1) as nat);
            if let Some((rest, used_rest)) = spec_decode_atts(
                mode,
                bytes.skip(used as int),
                (count - 1) as nat,
            ) {
                let atts = seq![(att_id, att)] + rest;
                assert forall|i: int| 0 <= i < atts.len() implies raw_att_wf(
                    #[trigger] atts[i].1,
                ) && raw_att_fits(mode, atts[i].0, atts[i].1) by {
                    if i > 0 {
                        assert(atts[i] == rest[i - 1]);
                    }
                }
                assert(count * att_header_size(mode) == att_header_size(mode) + (count - 1)
                    * att_header_size(mode)) by (nonlinear_arith);
            }
        }
    }
}

/// A decoded message is sound and fits the mode: at each level the announced
/// number is the number of what was decoded.
pub proof fn lemma_decode_buff_sound(mode: LcsfModeEnum, bytes: Seq<u8>)
    ensures
        spec_decode_buff(mode, bytes) matches Some(msg) ==> raw_msg_wf(msg) && raw_msg_fits(
            mode,
            msg,
        ),
{
    if let Some(head) = spec_fetch_msg_header(mode, bytes) {
        lemma_field_fits(mode, bytes, 0);
        lemma_field_fits(mode, bytes, 1);
        lemma_field_fits(mode, bytes, 2);
        lemma_decode_atts_sound(mode, bytes.skip(msg_header_size(mode) as int), head.att_nb as nat);
    }
}

// *** Depth ***

/// A decoded attribute takes at least one header for each of its levels.
pub proof fn lemma_decode_att_depth(mode: LcsfModeEnum, bytes: Seq<u8>)
    ensures
        spec_decode_att(mode, bytes) matches Some((_, att, used)) ==> raw_att_depth(att)
            * att_header_size(mode) <= used,
    decreases bytes.len(), 0nat,
{
    if let Some((_, att, used)) = spec_decode_att(mode, bytes) {
        let header = att_header_size(mode);
        match att.payload {
            RawPayload::Data(_) => {
                assert(1 * header == header) by (nonlinear_arith);
            },
            RawPayload::SubattArr(subatts) => {
                lemma_decode_atts_depth(mode, bytes.skip(header as int), att.payload_size as nat);
                assert((1 + raw_atts_depth(subatts)) * header == header + raw_atts_depth(subatts)
                    * header) by (nonlinear_arith);
            },
        }
    }
}

/// Decoded attributes take at least one header for each level of the deepest
/// of them.
pub proof fn lemma_decode_atts_depth(mode: LcsfModeEnum, bytes: Seq<u8>, count: nat)
    ensures
        spec_decode_atts(mode, bytes, count) matches Some((atts, used)) ==> raw_atts_depth(atts)
            * att_header_size(mode) <= used,
    decreases bytes.len(), 1 + count,
{
    if let Some((atts, used_all)) = spec_decode_atts(mode, bytes, count) {
        let header = att_header_size(mode);
        if count > 0 {
            let (att_id, att, used) = spec_decode_att(mode, bytes).unwrap();
            let (rest, _) = spec_decode_atts(
                mode,
                bytes.skip(used as int),
                (count - 1) as nat,
            ).unwrap();
            lemma_decode_att_depth(mode, bytes);
            lemma_decode_atts_depth(mode, bytes.skip(used as int), (count - 1) as nat);
            assert(atts[0] == (att_id, att));
            assert(atts.skip(1) =~= rest);
        } else {
            assert(0 * header == 0) by (nonlinear_arith);
        }
    }
}

/// Depth: the attributes of a decoded message are no deeper than the bytes
/// after the message header can hold attribute headers.
pub proof fn lemma_decode_buff_depth(mode: LcsfModeEnum, bytes: Seq<u8>)
    ensures
        spec_decode_buff(mode, bytes) matches Some(msg) ==> msg_header_size(mode) + raw_atts_depth(
            msg.att_arr,
        ) * att_header_size(mode) <= bytes.len(),
{
    if let Some(head) = spec_fetch_msg_header(mode, bytes) {
        lemma_decode_atts_depth(mode, bytes.skip(msg_header_size(mode) as int), head.att_nb as nat);
    }
}

// *** Writing what was decoded ***

/// Writing a field that was read gives the bytes that were read.
pub proof fn lemma_field_bytes_of_field(mode: LcsfModeEnum, bytes: Seq<u8>, idx: int)
    requires
        0 <= idx,
        (idx + 1) * field_size(mode) <= bytes.len(),
    ensures
        spec_field_bytes(mode, spec_field(mode, bytes, idx)) == bytes.subrange(
            idx * field_size(mode),
            (idx + 1) * field_size(mode),
        ),
{
    assert(spec_field_bytes(mode, spec_field(mode, bytes, idx)) =~= bytes.subrange(
        idx * field_size(mode),
        (idx + 1) * field_size(mode),
    ));
}

/// Splitting an id field into id and flag, then joining them, changes nothing.
pub proof fn lemma_flagged_id_of_field(mode: LcsfModeEnum, field: u16)
    requires
        field <= field_max(mode),
    ensures
        spec_flagged_id(mode, field % subatt_flag(mode), field >= subatt_flag(mode)) == field,
{
    match mode {
        LcsfModeEnum::Small => {
            assert(field < 0x100 ==> (field % 0x80) % 0x80 + (if field >= 0x80 {
                0x80int
            } else {
                0int
            }) == field) by (bit_vector);
        },
        LcsfModeEnum::Normal => {
            assert((field % 0x8000) % 0x8000 + (if field >= 0x8000 {
                0x8000int
            } else {
                0int
            }) == field) by (bit_vector);
        },
    }
}

/// Writing an attribute header that was read gives the bytes that were read.
pub proof fn lemma_att_header_of_bytes(mode: LcsfModeEnum, bytes: Seq<u8>, att: RawAtt)
    requires
        spec_fetch_att_header(mode, bytes) matches Some((_, head)) && head.has_subatt
            == att.has_subatt && head.payload_size == att.payload_size,
    ensures
        spec_fill_att_header(mode, spec_fetch_att_header(mode, bytes).unwrap().0, att)
            == bytes.take(att_header_size(mode) as int),
{
    let att_id = spec_fetch_att_header(mode, bytes).unwrap().0;
    let field = spec_field(mode, bytes, 0);
    lemma_field_bytes_of_field(mode, bytes, 0);
    lemma_field_bytes_of_field(mode, bytes, 1);
    lemma_field_fits(mode, bytes, 0);
    lemma_flagged_id_of_field(mode, field);
    assert(spec_flagged_id(mode, att_id, att.has_subatt) == field);
    assert(bytes.subrange(0, field_size(mode) as int) + bytes.subrange(
        field_size(mode) as int,
        2 * field_size(mode) as int,
    ) =~= bytes.take(att_header_size(mode) as int));
}

/// A decoded attribute, written in full, gives the bytes it was decoded from.
pub proof fn lemma_wire_decoded_att(mode: LcsfModeEnum, bytes: Seq<u8>)
    ensures
        spec_decode_att(mode, bytes) matches Some((att_id, att, used)) ==> spec_wire_att(
            mode,
            att_id,
            att,
        ) == bytes.take(used as int),
    decreases bytes.len(), 0nat,
{
    if let Some((att_id, att, used)) = spec_decode_att(mode, bytes) {
        let body = bytes.skip(att_header_size(mode) as int);
        lemma_att_header_of_bytes(mode, bytes, att);
        lemma_decode_att_sound(mode, bytes);
        match att.payload {
            RawPayload::Data(data) => {
                assert(spec_wire_att(mode, att_id, att) =~= bytes.take(used as int));
            },
            RawPayload::SubattArr(subatts) => {
                lemma_wire_decoded_atts(mode, body, att.payload_size as nat);
                assert(spec_wire_att(mode, att_id, att) =~= bytes.take(used as int));
            },
        }
    }
}

/// Decoded attributes, written in full, give the bytes they were decoded
/// from.
pub proof fn lemma_wire_decoded_atts(mode: LcsfModeEnum, bytes: Seq<u8>, count: nat)
    ensures
        spec_decode_atts(mode, bytes, count) matches Some((atts, used)) ==> spec_wire_atts(
            mode,
            atts,
        ) == bytes.take(used as int),
    decreases bytes.len(), 1 + count,
{
    if let Some((atts, used_all)) = spec_decode_atts(mode, bytes, count) {
        if count == 0 {
            assert(spec_wire_atts(mode, atts) =~= bytes.take(0));
        } else {
            let (att_id, att, used) = spec_decode_att(mode, bytes).unwrap();
            let tail = bytes.skip(used as int);
            let (rest, used_rest) = spec_decode_atts(mode, tail, (count - 1) as nat).unwrap();
            lemma_decode_att_sound(mode, bytes);
            lemma_decode_atts_sound(mode, tail, (count - 1) as nat);
            assert(atts[0] == (att_id, att));
            assert(atts.skip(1) =~= rest);
            lemma_wire_decoded_att(mode, bytes);
            lemma_wire_decoded_atts(mode, tail, (count - 1) as nat);
            assert(bytes.take(used as int) + tail.take(used_rest as int) =~= bytes.take(
                used_all as int,
            ));
        }
    }
}

/// Writing a message header that was read gives the bytes that were read.
pub proof fn lemma_msg_header_of_bytes(mode: LcsfModeEnum, bytes: Seq<u8>, msg: RawMsg)
    requires
        spec_fetch_msg_header(mode, bytes) matches Some(head) && head.prot_id == msg.prot_id
            && head.cmd_id == msg.cmd_id && head.att_nb == msg.att_nb,
    ensures
        spec_fill_msg_header(mode, msg) == bytes.take(msg_header_size(mode) as int),
{
    lemma_field_bytes_of_field(mode, bytes, 0);
    lemma_field_bytes_of_field(mode, bytes, 1);
    lemma_field_bytes_of_field(mode, bytes, 2);
    assert(spec_fill_msg_header(mode, msg) =~= bytes.take(msg_header_size(mode) as int));
}

/// A decoded message, written in full, gives the buffer it was decoded from.
pub proof fn lemma_wire_decoded_buff(mode: LcsfModeEnum, bytes: Seq<u8>)
    ensures
        spec_decode_buff(mode, bytes) matches Some(msg) ==> spec_wire_buff(mode, msg) == bytes,
{
    if let Some(msg) = spec_decode_buff(mode, bytes) {
        let body = bytes.skip(msg_header_size(mode) as int);
        lemma_msg_header_of_bytes(mode, bytes, msg);
        lemma_wire_decoded_atts(mode, body, msg.att_nb as nat);
        assert(spec_wire_buff(mode, msg) =~= bytes);
    }
}

// *** Decoding what was written ***

/// Reading a field that was written gives the value that was written, where
/// the value fits the field.
pub proof fn lemma_field_of_field_bytes(mode: LcsfModeEnum, value: u16, rest: Seq<u8>)
    requires
        value <= field_max(mode),
    ensures
        spec_field_bytes(mode, value).len() == field_size(mode),
        spec_field(mode, spec_field_bytes(mode, value) + rest, 0) == value,
{
}

/// Joining an id and a flag, then splitting them, changes nothing, where the
/// id is below the flag.
pub proof fn lemma_field_of_flagged_id(mode: LcsfModeEnum, att_id: u16, has_subatt: bool)
    requires
        att_id < subatt_flag(mode),
    ensures
        spec_flagged_id(mode, att_id, has_subatt) <= field_max(mode),
        spec_flagged_id(mode, att_id, has_subatt) % subatt_flag(mode) == att_id,
        spec_flagged_id(mode, att_id, has_subatt) >= subatt_flag(mode) <==> has_subatt,
{
}

/// Reading an attribute header that was written, whatever follows it, gives
/// the id, the flag and the size that were written, where they fit the mode.
pub proof fn lemma_fetch_filled_att_header(
    mode: LcsfModeEnum,
    att_id: u16,
    att: RawAtt,
    rest: Seq<u8>,
)
    requires
        att_id < subatt_flag(mode),
        att.payload_size <= field_max(mode),
    ensures
        spec_fill_att_header(mode, att_id, att).len() == att_header_size(mode),
        spec_fetch_att_header(mode, spec_fill_att_header(mode, att_id, att) + rest) == Some(
            (
                att_id,
                RawAtt {
                    has_subatt: att.has_subatt,
                    payload_size: att.payload_size,
                    payload: RawPayload::Data(Seq::empty()),
                },
            ),
        ),
{
    let flagged_id = spec_flagged_id(mode, att_id, att.has_subatt);
    let id_bytes = spec_field_bytes(mode, flagged_id);
    let size_bytes = spec_field_bytes(mode, att.payload_size);
    let bytes = spec_fill_att_header(mode, att_id, att) + rest;
    lemma_field_of_flagged_id(mode, att_id, att.has_subatt);
    lemma_field_of_field_bytes(mode, flagged_id, size_bytes + rest);
    lemma_field_of_field_bytes(mode, att.payload_size, rest);
    assert(bytes =~= id_bytes + (size_bytes + rest));
    assert(spec_field(mode, bytes, 0) == flagged_id);
    assert(bytes.skip(field_size(mode) as int) =~= size_bytes + rest);
    assert(spec_field(mode, bytes, 1) == spec_field(mode, size_bytes + rest, 0));
}

/// Decoding an attribute that was written in full, whatever follows it, gives
/// the attribute back, where it is sound and fits the mode.
pub proof fn lemma_decode_wired_att(mode: LcsfModeEnum, att_id: u16, att: RawAtt, rest: Seq<u8>)
    requires
        raw_att_wf(att),
        raw_att_fits(mode, att_id, att),
    ensures
        spec_decode_att(mode, spec_wire_att(mode, att_id, att) + rest) == Some(
            (att_id, att, spec_wire_att(mode, att_id, att).len()),
        ),
    decreases att,
{
    let head = spec_fill_att_header(mode, att_id, att);
    let bytes = spec_wire_att(mode, att_id, att) + rest;
    match att.payload {
        RawPayload::Data(data) => {
            lemma_fetch_filled_att_header(mode, att_id, att, data + rest);
            assert(bytes =~= head + (data + rest));
            assert(bytes.skip(att_header_size(mode) as int) =~= data + rest);
            assert((data + rest).take(data.len() as int) =~= data);
        },
        RawPayload::SubattArr(subatts) => {
            let body = spec_wire_atts(mode, subatts);
            lemma_fetch_filled_att_header(mode, att_id, att, body + rest);
            assert(bytes =~= head + (body + rest));
            assert(bytes.skip(att_header_size(mode) as int) =~= body + rest);
            lemma_decode_wired_atts(mode, subatts, rest);
        },
    }
}

/// Decoding attributes that were written in full, whatever follows them,
/// gives the attributes back, where they are sound and fit the mode.
pub proof fn lemma_decode_wired_atts(mode: LcsfModeEnum, atts: Seq<(u16, RawAtt)>, rest: Seq<u8>)
    requires
        raw_atts_wf(atts),
        raw_atts_fit(mode, atts),
    ensures
        spec_decode_atts(mode, spec_wire_atts(mode, atts) + rest, atts.len()) == Some(
            (atts, spec_wire_atts(mode, atts).len()),
        ),
    decreases atts,
{
    if atts.len() == 0 {
        assert(atts =~= Seq::empty());
    } else {
        let (att_id, att) = atts[0];
        let tail = atts.skip(1);
        let first = spec_wire_att(mode, att_id, att);
        let others = spec_wire_atts(mode, tail);
        let bytes = spec_wire_atts(mode, atts) + rest;
        assert(raw_att_wf(atts[0].1) && raw_att_fits(mode, atts[0].0, atts[0].1));
        assert forall|i: int| 0 <= i < tail.len() implies raw_att_wf(#[trigger] tail[i].1)
            && raw_att_fits(mode, tail[i].0, tail[i].1) by {
            assert(tail[i] == atts[i + 1]);
        }
        lemma_decode_wired_att(mode, att_id, att, others + rest);
        lemma_decode_wired_atts(mode, tail, rest);
        assert(bytes =~= first + (others + rest));
        assert(bytes.skip(first.len() as int) =~= others + rest);
        assert(seq![(att_id, att)] + tail =~= atts);
    }
}

/// Reading a message header that was written, whatever follows it, gives the
/// fields that were written, where they fit the mode.
pub proof fn lemma_fetch_filled_msg_header(mode: LcsfModeEnum, msg: RawMsg, rest: Seq<u8>)
    requires
        msg.prot_id <= field_max(mode),
        msg.cmd_id <= field_max(mode),
        msg.att_nb <= field_max(mode),
    ensures
        spec_fill_msg_header(mode, msg).len() == msg_header_size(mode),
        spec_fetch_msg_header(mode, spec_fill_msg_header(mode, msg) + rest) == Some(
            RawMsg {
                prot_id: msg.prot_id,
                cmd_id: msg.cmd_id,
                att_nb: msg.att_nb,
                att_arr: Seq::empty(),
            },
        ),
{
    let prot_bytes = spec_field_bytes(mode, msg.prot_id);
    let cmd_bytes = spec_field_bytes(mode, msg.cmd_id);
    let nb_bytes = spec_field_bytes(mode, msg.att_nb);
    let bytes = spec_fill_msg_header(mode, msg) + rest;
    lemma_field_of_field_bytes(mode, msg.prot_id, cmd_bytes + (nb_bytes + rest));
    lemma_field_of_field_bytes(mode, msg.cmd_id, nb_bytes + rest);
    lemma_field_of_field_bytes(mode, msg.att_nb, rest);
    assert(bytes =~= prot_bytes + (cmd_bytes + (nb_bytes + rest)));
    assert(bytes.skip(field_size(mode) as int) =~= cmd_bytes + (nb_bytes + rest));
    assert(bytes.skip(2 * field_size(mode) as int) =~= nb_bytes + rest);
    assert(spec_field(mode, bytes, 1) == spec_field(mode, cmd_bytes + (nb_bytes + rest), 0));
    assert(spec_field(mode, bytes, 2) == spec_field(mode, nb_bytes + rest, 0));
}

/// Decoding a message that was written in full gives the message back, where
/// it is sound and fits the mode.
pub proof fn lemma_decode_wired_buff(mode: LcsfModeEnum, msg: RawMsg)
    requires
        raw_msg_wf(msg),
        raw_msg_fits(mode, msg),
    ensures
        spec_decode_buff(mode, spec_wire_buff(mode, msg)) == Some(msg),
{
    let body = spec_wire_atts(mode, msg.att_arr);
    let bytes = spec_wire_buff(mode, msg);
    lemma_fetch_filled_msg_header(mode, msg, body);
    lemma_decode_wired_atts(mode, msg.att_arr, Seq::empty());
    assert(body + Seq::<u8>::empty() =~= body);
    assert(bytes.skip(msg_header_size(mode) as int) =~= body);
}

/// When success is owed: a buffer decodes to a message exactly where the
/// message is sound, fits the mode and, written in full, is the buffer.
pub proof fn lemma_decode_some_iff_wire(mode: LcsfModeEnum, bytes: Seq<u8>, msg: RawMsg)
    ensures
        spec_decode_buff(mode, bytes) == Some(msg) <==> (raw_msg_wf(msg) && raw_msg_fits(mode, msg)
            && spec_wire_buff(mode, msg) == bytes),
{
    if spec_decode_buff(mode, bytes) == Some(msg) {
        lemma_decode_buff_sound(mode, bytes);
        lemma_wire_decoded_buff(mode, bytes);
    }
    if raw_msg_wf(msg) && raw_msg_fits(mode, msg) && spec_wire_buff(mode, msg) == bytes {
        lemma_decode_wired_buff(mode, msg);
    }
}

// *** Encoding and decoding ***

/// Encoding writes an attribute in full but for what `drop_absent_in` drops.
pub proof fn lemma_encode_att_is_wire(mode: LcsfModeEnum, att_id: u16, att: RawAtt)
    requires
        att.payload_size != 0,
    ensures
        spec_encode_att(mode, att_id, att) == spec_wire_att(mode, att_id, drop_absent_in(att)),
    decreases att, 0nat,
{
    match att.payload {
        RawPayload::Data(_) => {},
        RawPayload::SubattArr(subatts) => {
            lemma_encode_atts_is_wire(mode, subatts);
            assert(spec_fill_att_header(mode, att_id, att) == spec_fill_att_header(
                mode,
                att_id,
                drop_absent_in(att),
            ));
        },
    }
}

/// Encoding writes a list of attributes in full but for what `drop_absent`
/// drops: the attributes whose payload size is zero, at every level.
pub proof fn lemma_encode_atts_is_wire(mode: LcsfModeEnum, atts: Seq<(u16, RawAtt)>)
    ensures
        spec_encode_atts(mode, atts) == spec_wire_atts(mode, drop_absent(atts)),
    decreases atts, 1nat,
{
    if atts.len() > 0 {
        let tail = atts.skip(1);
        lemma_encode_atts_is_wire(mode, tail);
        if atts[0].1.payload_size == 0 {
            assert(spec_encode_att(mode, atts[0].0, atts[0].1) =~= Seq::empty());
            assert(Seq::<u8>::empty() + spec_encode_atts(mode, tail) =~= spec_encode_atts(
                mode,
                tail,
            ));
        } else {
            let kept = seq![(atts[0].0, drop_absent_in(atts[0].1))] + drop_absent(tail);
            lemma_encode_att_is_wire(mode, atts[0].0, atts[0].1);
            assert(kept[0] == (atts[0].0, drop_absent_in(atts[0].1)));
            assert(kept.skip(1) =~= drop_absent(tail));
        }
    }
}

/// Nothing is dropped from an attribute in which no payload size is zero.
pub proof fn lemma_drop_absent_in_no_empty(att: RawAtt)
    requires
        raw_att_no_empty(att),
    ensures
        drop_absent_in(att) == att,
    decreases att, 0nat,
{
    if let RawPayload::SubattArr(subatts) = att.payload {
        lemma_drop_absent_no_empty(subatts);
    }
}

/// Nothing is dropped from attributes in which no payload size is zero.
pub proof fn lemma_drop_absent_no_empty(atts: Seq<(u16, RawAtt)>)
    requires
        raw_atts_no_empty(atts),
    ensures
        drop_absent(atts) == atts,
    decreases atts, 1nat,
{
    if atts.len() > 0 {
        let tail = atts.skip(1);
        assert(raw_att_no_empty(atts[0].1));
        assert forall|i: int| 0 <= i < tail.len() implies raw_att_no_empty(
            #[trigger] tail[i].1,
        ) by {
            assert(tail[i] == atts[i + 1]);
        }
        lemma_drop_absent_in_no_empty(atts[0].1);
        lemma_drop_absent_no_empty(tail);
        assert(seq![atts[0]] + tail =~= atts);
    } else {
        assert(atts =~= Seq::empty());
    }
}

/// Encoding does not see what `drop_absent` drops: a list of attributes and
/// the same list without the attributes whose payload size is zero encode to
/// the same bytes.
pub proof fn lemma_encode_atts_drops_absent(mode: LcsfModeEnum, atts: Seq<(u16, RawAtt)>)
    ensures
        spec_encode_atts(mode, drop_absent(atts)) == spec_encode_atts(mode, atts),
    decreases atts, 1nat,
{
    lemma_encode_atts_is_wire(mode, atts);
    lemma_encode_atts_is_wire(mode, drop_absent(atts));
    lemma_drop_absent_twice(atts);
}

/// Dropping twice drops no more than dropping once.
pub proof fn lemma_drop_absent_twice(atts: Seq<(u16, RawAtt)>)
    ensures
        drop_absent(drop_absent(atts)) == drop_absent(atts),
    decreases atts, 1nat,
{
    if atts.len() > 0 {
        let tail = atts.skip(1);
        lemma_drop_absent_twice(tail);
        if atts[0].1.payload_size != 0 {
            let kept = seq![(atts[0].0, drop_absent_in(atts[0].1))] + drop_absent(tail);
            lemma_drop_absent_in_twice(atts[0].1);
            assert(kept[0] == (atts[0].0, drop_absent_in(atts[0].1)));
            assert(kept.skip(1) =~= drop_absent(tail));
        }
    }
}

/// Dropping twice from an attribute drops no more than dropping once.
pub proof fn lemma_drop_absent_in_twice(att: RawAtt)
    ensures
        drop_absent_in(drop_absent_in(att)) == drop_absent_in(att),
    decreases att, 0nat,
{
    if let RawPayload::SubattArr(subatts) = att.payload {
        lemma_drop_absent_twice(subatts);
    }
}

/// Decoding, then encoding: a buffer that decodes to a message in which no
/// payload size is zero is the encoding of that message.
pub proof fn lemma_encode_decoded_buff(mode: LcsfModeEnum, bytes: Seq<u8>)
    requires
        spec_decode_buff(mode, bytes) matches Some(msg) && raw_atts_no_empty(msg.att_arr),
    ensures
        spec_encode_buff(mode, spec_decode_buff(mode, bytes).unwrap()) == bytes,
{
    let msg = spec_decode_buff(mode, bytes).unwrap();
    lemma_wire_decoded_buff(mode, bytes);
    lemma_encode_atts_is_wire(mode, msg.att_arr);
    lemma_drop_absent_no_empty(msg.att_arr);
}

/// Encoding, then decoding: a message that is sound, fits the mode and holds
/// no payload size of zero is what its encoding decodes to.
pub proof fn lemma_decode_encoded_buff(mode: LcsfModeEnum, msg: RawMsg)
    requires
        raw_msg_wf(msg),
        raw_msg_fits(mode, msg),
        raw_atts_no_empty(msg.att_arr),
    ensures
        spec_decode_buff(mode, spec_encode_buff(mode, msg)) == Some(msg),
{
    lemma_decode_wired_buff(mode, msg);
    lemma_encode_atts_is_wire(mode, msg.att_arr);
    lemma_drop_absent_no_empty(msg.att_arr);
}

// *** Exact framing ***

/// What an attribute decodes to does not depend on the bytes that follow it.
pub proof fn lemma_decode_att_ignores_rest(mode: LcsfModeEnum, bytes: Seq<u8>, rest: Seq<u8>)
    requires
        spec_decode_att(mode, bytes) is Some,
    ensures
        spec_decode_att(mode, bytes + rest) == spec_decode_att(mode, bytes),
    decreases bytes.len(), 0nat,
{
    let (att_id, head) = spec_fetch_att_header(mode, bytes).unwrap();
    let body = bytes.skip(att_header_size(mode) as int);
    assert((bytes + rest).skip(att_header_size(mode) as int) =~= body + rest);
    assert(spec_field(mode, bytes + rest, 0) == spec_field(mode, bytes, 0));
    assert(spec_field(mode, bytes + rest, 1) == spec_field(mode, bytes, 1));
    if head.has_subatt {
        lemma_decode_atts_ignores_rest(mode, body, head.payload_size as nat, rest);
    } else {
        assert((body + rest).take(head.payload_size as int) =~= body.take(
            head.payload_size as int,
        ));
    }
}

/// What a list of attributes decodes to does not depend on the bytes that
/// follow it.
pub proof fn lemma_decode_atts_ignores_rest(
    mode: LcsfModeEnum,
    bytes: Seq<u8>,
    count: nat,
    rest: Seq<u8>,
)
    requires
        spec_decode_atts(mode, bytes, count) is Some,
    ensures
        spec_decode_atts(mode, bytes + rest, count) == spec_decode_atts(mode, bytes, count),
    decreases bytes.len(), 1 + count,
{
    if count > 0 {
        let (att_id, att, used) = spec_decode_att(mode, bytes).unwrap();
        lemma_decode_att_ignores_rest(mode, bytes, rest);
        lemma_decode_att_sound(mode, bytes);
        assert((bytes + rest).skip(used as int) =~= bytes.skip(used as int) + rest);
        lemma_decode_atts_ignores_rest(mode, bytes.skip(used as int), (count - 1) as nat, rest);
    }
}

/// Bytes left over: a buffer that holds a message and then more is refused.
pub proof fn lemma_decode_buff_refuses_leftover(mode: LcsfModeEnum, bytes: Seq<u8>, extra: Seq<u8>)
    requires
        spec_decode_buff(mode, bytes) is Some,
        extra.len() > 0,
    ensures
        spec_decode_buff(mode, bytes + extra) is None,
{
    let head = spec_fetch_msg_header(mode, bytes).unwrap();
    let body = bytes.skip(msg_header_size(mode) as int);
    assert((bytes + extra).skip(msg_header_size(mode) as int) =~= body + extra);
    assert(spec_field(mode, bytes + extra, 0) == spec_field(mode, bytes, 0));
    assert(spec_field(mode, bytes + extra, 1) == spec_field(mode, bytes, 1));
    assert(spec_field(mode, bytes + extra, 2) == spec_field(mode, bytes, 2));
    lemma_decode_atts_ignores_rest(mode, body, head.att_nb as nat, extra);
}

/// A buffer shorter than a message header is refused.
pub proof fn lemma_decode_buff_refuses_short(mode: LcsfModeEnum, bytes: Seq<u8>)
    requires
        bytes.len() < msg_header_size(mode),
    ensures
        spec_decode_buff(mode, bytes) is None,
{
}

/// An attribute number beyond the bytes: attributes that are more than the
/// bytes left can hold headers of are refused.
pub proof fn lemma_decode_atts_refuses_count(mode: LcsfModeEnum, bytes: Seq<u8>, count: nat)
    requires
        count * att_header_size(mode) > bytes.len(),
    ensures
        spec_decode_atts(mode, bytes, count) is None,
{
    lemma_decode_atts_sound(mode, bytes, count);
}

/// A payload size beyond the bytes: an attribute that announces more data, or
/// more sub-attributes, than the bytes after its header can hold is refused.
pub proof fn lemma_decode_att_refuses_size(mode: LcsfModeEnum, bytes: Seq<u8>)
    requires
        spec_fetch_att_header(mode, bytes) matches Some((_, head)) && (if head.has_subatt {
            head.payload_size * att_header_size(mode) > bytes.len() - att_header_size(mode)
        } else {
            head.payload_size > bytes.len() - att_header_size(mode)
        }),
    ensures
        spec_decode_att(mode, bytes) is None,
{
    let (_, head) = spec_fetch_att_header(mode, bytes).unwrap();
    if head.has_subatt {
        lemma_decode_atts_refuses_count(
            mode,
            bytes.skip(att_header_size(mode) as int),
            head.payload_size as nat,
        );
    }
}

/// A message whose header announces more attributes than the bytes after it
/// can hold headers of is refused.
pub proof fn lemma_decode_buff_refuses_count(mode: LcsfModeEnum, bytes: Seq<u8>)
    requires
        spec_fetch_msg_header(mode, bytes) matches Some(head) && head.att_nb * att_header_size(
            mode,
        ) > bytes.len() - msg_header_size(mode),
    ensures
        spec_decode_buff(mode, bytes) is None,
{
    let head = spec_fetch_msg_header(mode, bytes).unwrap();
    lemma_decode_atts_refuses_count(
        mode,
        bytes.skip(msg_header_size(mode) as int),
        head.att_nb as nat,
    );
}

/// A failure anywhere fails the whole: where one of the attributes of a list
/// is cut short, the list is refused.
pub proof fn lemma_decode_atts_refuses_cut(mode: LcsfModeEnum, bytes: Seq<u8>, count: nat, idx: nat)
    requires
        idx < count,
        spec_decode_atts(mode, bytes, idx) matches Some((_, used)) && spec_decode_att(
            mode,
            bytes.skip(used as int),
        ) is None,
    ensures
        spec_decode_atts(mode, bytes, count) is None,
    decreases idx,
{
    if idx > 0 {
        let (att_id, att, used) = spec_decode_att(mode, bytes).unwrap();
        let tail = bytes.skip(used as int);
        let (_, used_rest) = spec_decode_atts(mode, tail, (idx - 1) as nat).unwrap();
        lemma_decode_att_sound(mode, bytes);
        lemma_decode_atts_sound(mode, tail, (idx - 1) as nat);
        assert(tail.skip(used_rest as int) =~= bytes.skip((used + used_rest) as int));
        lemma_decode_atts_refuses_cut(mode, tail, (count - 1) as nat, (idx - 1) as nat);
    } else {
        assert(bytes.skip(0) =~= bytes);
    }
}

} // verus!
