//! Serialize and de-serialize a data buffer to and from a raw message.
//!
//! A message is a header of three fields (protocol id, command id, attribute
//! number) followed by its attributes. An attribute is a header of two fields
//! (id, payload size) followed by its payload: bytes for a leaf,
//! sub-attributes for a node. The top bit of the id field tells a node from a
//! leaf. A field is one byte in small mode and two bytes, least significant
//! first, in normal mode.

use crate::lcsf_transcoder_proof::{
    lemma_decode_buff_depth, lemma_decode_buff_sound, lemma_wire_decoded_buff,
};
use vstd::prelude::*;

verus! {

/// Width of the structural fields on the wire.
#[derive(Debug, PartialEq, Eq, Structural, Copy, Clone)]
pub enum LcsfModeEnum {
    /// One byte per field.
    Small,
    /// Two bytes per field, least significant byte first.
    Normal,
}

/// Reasons for which a buffer is not a message.
#[derive(Debug, PartialEq, Eq, Structural, Copy, Clone)]
pub enum LcsfDecodeErrorEnum {
    /// Data is missing, or is left over, compared to what the headers announce.
    FormatErr,
    /// The message is too big or too deeply nested to be processed.
    OverflowErr,
}

/// The byte that stands for a decoding error in an error message.
pub open spec fn spec_decode_error_code(err: LcsfDecodeErrorEnum) -> u8 {
    match err {
        LcsfDecodeErrorEnum::FormatErr => 0x00,
        LcsfDecodeErrorEnum::OverflowErr => 0x01,
    }
}

impl LcsfDecodeErrorEnum {
    /// The byte that stands for the error in an error message.
    pub fn code(self) -> (code: u8)
        ensures
            code == spec_decode_error_code(self),
    {
        match self {
            LcsfDecodeErrorEnum::FormatErr => 0x00,
            LcsfDecodeErrorEnum::OverflowErr => 0x01,
        }
    }
}

/// Payload of a raw attribute.
#[derive(Debug, PartialEq)]
pub enum LcsfRawAttPayload {
    /// The bytes of a leaf attribute.
    Data(Vec<u8>),
    /// The sub-attributes of a node, each with its id.
    SubattArr(Vec<(u16, LcsfRawAtt)>),
}

/// An attribute as it travels, before any schema is applied.
#[derive(Debug, PartialEq)]
pub struct LcsfRawAtt {
    /// Whether the attribute carries sub-attributes rather than bytes.
    pub has_subatt: bool,
    /// Number of bytes of a leaf, number of sub-attributes of a node.
    pub payload_size: u16,
    /// The payload itself.
    pub payload: LcsfRawAttPayload,
}

/// A message as it travels, before any schema is applied.
#[derive(Debug, PartialEq)]
pub struct LcsfRawMsg {
    /// Protocol id.
    pub prot_id: u16,
    /// Command id.
    pub cmd_id: u16,
    /// Number of attributes announced by the header.
    pub att_nb: u16,
    /// The attributes, each with its id.
    pub att_arr: Vec<(u16, LcsfRawAtt)>,
}

/// Mathematical value of a raw attribute payload.
pub enum RawPayload {
    Data(Seq<u8>),
    SubattArr(Seq<(u16, RawAtt)>),
}

/// Mathematical value of a raw attribute.
pub struct RawAtt {
    pub has_subatt: bool,
    pub payload_size: u16,
    pub payload: RawPayload,
}

/// Mathematical value of a raw message.
pub struct RawMsg {
    pub prot_id: u16,
    pub cmd_id: u16,
    pub att_nb: u16,
    pub att_arr: Seq<(u16, RawAtt)>,
}

/// Mathematical value of a list of raw attributes.
pub open spec fn raw_atts_view(atts: Seq<(u16, LcsfRawAtt)>) -> Seq<(u16, RawAtt)>
    decreases atts,
{
    Seq::new(
        atts.len(),
        |i: int|
            if 0 <= i < atts.len() {
                (atts[i].0, raw_att_view(atts[i].1))
            } else {
                arbitrary()
            },
    )
}

/// Mathematical value of a raw attribute.
pub open spec fn raw_att_view(att: LcsfRawAtt) -> RawAtt
    decreases att,
{
    RawAtt {
        has_subatt: att.has_subatt,
        payload_size: att.payload_size,
        payload: match att.payload {
            LcsfRawAttPayload::Data(data) => RawPayload::Data(data@),
            LcsfRawAttPayload::SubattArr(subatts) => RawPayload::SubattArr(raw_atts_view(subatts@)),
        },
    }
}

impl View for LcsfRawAtt {
    type V = RawAtt;

    open spec fn view(&self) -> RawAtt {
        raw_att_view(*self)
    }
}

impl View for LcsfRawMsg {
    type V = RawMsg;

    open spec fn view(&self) -> RawMsg {
        RawMsg {
            prot_id: self.prot_id,
            cmd_id: self.cmd_id,
            att_nb: self.att_nb,
            att_arr: raw_atts_view(self.att_arr@),
        }
    }
}

/// Reading position in a byte buffer: the bytes that were not read yet.
#[derive(Debug, Clone, Copy)]
pub struct LcsfBuffIter<'a> {
    buff: &'a [u8],
    pos: usize,
}

impl<'a> View for LcsfBuffIter<'a> {
    type V = Seq<u8>;

    /// The bytes that are still to be read, in order.
    closed spec fn view(&self) -> Seq<u8> {
        if self.pos <= self.buff@.len() {
            self.buff@.skip(self.pos as int)
        } else {
            Seq::empty()
        }
    }
}

impl<'a> LcsfBuffIter<'a> {
    /// Starts reading at the first byte of `buff`.
    pub fn new(buff: &'a [u8]) -> (it: Self)
        ensures
            it@ == buff@,
    {
        let it = LcsfBuffIter { buff, pos: 0 };
        assert(buff@.skip(0) =~= buff@);
        it
    }

    /// Number of bytes still to be read.
    pub fn len(&self) -> (n: usize)
        ensures
            n == self@.len(),
    {
        if self.pos <= self.buff.len() {
            self.buff.len() - self.pos
        } else {
            0
        }
    }

    /// Reads one byte, if there is one left.
    pub fn next(&mut self) -> (byte: Option<u8>)
        ensures
            old(self)@.len() == 0 ==> byte is None && final(self)@ == old(self)@,
            old(self)@.len() > 0 ==> byte == Some(old(self)@[0]) && final(self)@ == old(self)@.skip(
                1,
            ),
    {
        if self.pos < self.buff.len() {
            let byte: u8 = self.buff[self.pos];
            self.pos = self.pos + 1;
            assert(self@ =~= old(self)@.skip(1));
            Some(byte)
        } else {
            None
        }
    }

    /// Reads `count` bytes, if that many are left; reads nothing otherwise.
    pub fn take(&mut self, count: usize) -> (data: Option<Vec<u8>>)
        ensures
            old(self)@.len() < count ==> data is None && final(self)@ == old(self)@,
            old(self)@.len() >= count ==> data is Some && data->0@ == old(self)@.take(count as int)
                && final(self)@ == old(self)@.skip(count as int),
    {
        let mut data: Vec<u8> = Vec::new();
        if self.len() < count {
            return None;
        }
        if count == 0 {
            assert(data@ =~= old(self)@.take(0));
            assert(old(self)@.skip(0) =~= old(self)@);
            return Some(data);
        }
        let start: usize = self.pos;
        let mut idx: usize = 0;
        assert(data@ =~= self.buff@.subrange(start as int, start + idx));
        while idx < count
            invariant
                idx <= count,
                start + count <= self.buff.len(),
                data@ == self.buff@.subrange(start as int, start + idx),
            decreases count - idx,
        {
            data.push(self.buff[start + idx]);
            idx += 1;
            assert(data@ =~= self.buff@.subrange(start as int, start + idx));
        }
        self.pos = start + count;
        assert(data@ =~= old(self)@.take(count as int));
        assert(self@ =~= old(self)@.skip(count as int));
        Some(data)
    }
}

// *** Sound messages ***

/// Whether flag and payload size say what the payload is, in an attribute and
/// in all that it holds: no flag and the number of bytes for data, the flag
/// and the number of sub-attributes for a list.
pub open spec fn raw_att_wf(att: RawAtt) -> bool
    decreases att,
{
    match att.payload {
        RawPayload::Data(data) => !att.has_subatt && att.payload_size == data.len(),
        RawPayload::SubattArr(subatts) => att.has_subatt && att.payload_size == subatts.len()
            && raw_atts_wf(subatts),
    }
}

/// Whether `raw_att_wf` holds of each attribute of a list.
pub open spec fn raw_atts_wf(atts: Seq<(u16, RawAtt)>) -> bool
    decreases atts,
{
    forall|i: int| 0 <= i < atts.len() ==> raw_att_wf(#[trigger] atts[i].1)
}

/// Whether the attribute number of a message is the number of its attributes,
/// and `raw_att_wf` holds of each of them.
pub open spec fn raw_msg_wf(msg: RawMsg) -> bool {
    msg.att_nb == msg.att_arr.len() && raw_atts_wf(msg.att_arr)
}

/// Greatest value that a structural field can hold.
pub open spec fn field_max(mode: LcsfModeEnum) -> int {
    match mode {
        LcsfModeEnum::Small => 0xff,
        LcsfModeEnum::Normal => 0xffff,
    }
}

/// Whether id and payload size fit their fields, in an attribute and in all
/// that it holds: the id below the flag, the size within the field.
pub open spec fn raw_att_fits(mode: LcsfModeEnum, att_id: u16, att: RawAtt) -> bool
    decreases att,
{
    &&& att_id < subatt_flag(mode)
    &&& att.payload_size <= field_max(mode)
    &&& match att.payload {
        RawPayload::Data(_) => true,
        RawPayload::SubattArr(subatts) => raw_atts_fit(mode, subatts),
    }
}

/// Whether `raw_att_fits` holds of each attribute of a list.
pub open spec fn raw_atts_fit(mode: LcsfModeEnum, atts: Seq<(u16, RawAtt)>) -> bool
    decreases atts,
{
    forall|i: int| 0 <= i < atts.len() ==> raw_att_fits(mode, #[trigger] atts[i].0, atts[i].1)
}

/// Whether the header of a message fits its fields, and `raw_att_fits` holds
/// of each attribute.
pub open spec fn raw_msg_fits(mode: LcsfModeEnum, msg: RawMsg) -> bool {
    &&& msg.prot_id <= field_max(mode)
    &&& msg.cmd_id <= field_max(mode)
    &&& msg.att_nb <= field_max(mode)
    &&& raw_atts_fit(mode, msg.att_arr)
}

/// Whether no payload size is zero, in an attribute and in all that it holds.
pub open spec fn raw_att_no_empty(att: RawAtt) -> bool
    decreases att,
{
    &&& att.payload_size != 0
    &&& match att.payload {
        RawPayload::Data(_) => true,
        RawPayload::SubattArr(subatts) => raw_atts_no_empty(subatts),
    }
}

/// Whether `raw_att_no_empty` holds of each attribute of a list.
pub open spec fn raw_atts_no_empty(atts: Seq<(u16, RawAtt)>) -> bool
    decreases atts,
{
    forall|i: int| 0 <= i < atts.len() ==> raw_att_no_empty(#[trigger] atts[i].1)
}

// *** Depth ***

/// Number of levels of an attribute: one for a leaf, and for a node one more
/// than its deepest sub-attribute has.
pub open spec fn raw_att_depth(att: RawAtt) -> nat
    decreases att, 0nat,
{
    match att.payload {
        RawPayload::Data(_) => 1,
        RawPayload::SubattArr(subatts) => 1 + raw_atts_depth(subatts),
    }
}

/// Number of levels of the deepest attribute of a list; zero for no attribute.
pub open spec fn raw_atts_depth(atts: Seq<(u16, RawAtt)>) -> nat
    decreases atts, 1nat,
{
    if atts.len() == 0 {
        0
    } else {
        let first = raw_att_depth(atts[0].1);
        let others = raw_atts_depth(atts.skip(1));
        if first >= others {
            first
        } else {
            others
        }
    }
}

// *** Wire format ***

/// Number of bytes of one structural field.
pub open spec fn field_size(mode: LcsfModeEnum) -> nat {
    match mode {
        LcsfModeEnum::Small => 1,
        LcsfModeEnum::Normal => 2,
    }
}

/// Number of bytes of a message header: protocol id, command id, attribute number.
pub open spec fn msg_header_size(mode: LcsfModeEnum) -> nat {
    3 * field_size(mode)
}

/// Number of bytes of an attribute header: flagged id, payload size.
pub open spec fn att_header_size(mode: LcsfModeEnum) -> nat {
    2 * field_size(mode)
}

/// Weight of the sub-attribute flag, the top bit of the attribute id field.
pub open spec fn subatt_flag(mode: LcsfModeEnum) -> u16 {
    match mode {
        LcsfModeEnum::Small => 0x80,
        LcsfModeEnum::Normal => 0x8000,
    }
}

/// Value of the field number `idx` of a header whose first byte is `bytes[0]`.
pub open spec fn spec_field(mode: LcsfModeEnum, bytes: Seq<u8>, idx: int) -> u16 {
    match mode {
        LcsfModeEnum::Small => bytes[idx] as u16,
        LcsfModeEnum::Normal => (bytes[2 * idx] as int + 256 * (bytes[2 * idx + 1] as int)) as u16,
    }
}

/// The bytes of a field that holds `value`, cut to the width of the field.
pub open spec fn spec_field_bytes(mode: LcsfModeEnum, value: u16) -> Seq<u8> {
    match mode {
        LcsfModeEnum::Small => seq![(value % 256) as u8],
        LcsfModeEnum::Normal => seq![(value % 256) as u8, (value / 256) as u8],
    }
}

// *** Decoder ***

/// The message header at the start of `bytes`, with no attribute yet;
/// `None` where `bytes` is shorter than a header.
pub open spec fn spec_fetch_msg_header(mode: LcsfModeEnum, bytes: Seq<u8>) -> Option<RawMsg> {
    if bytes.len() < msg_header_size(mode) {
        None
    } else {
        Some(
            RawMsg {
                prot_id: spec_field(mode, bytes, 0),
                cmd_id: spec_field(mode, bytes, 1),
                att_nb: spec_field(mode, bytes, 2),
                att_arr: Seq::empty(),
            },
        )
    }
}

/// The attribute header at the start of `bytes`: the id without its flag, and
/// an attribute with flag and size but no payload yet; `None` where `bytes` is
/// shorter than a header.
pub open spec fn spec_fetch_att_header(mode: LcsfModeEnum, bytes: Seq<u8>) -> Option<
    (u16, RawAtt),
> {
    if bytes.len() < att_header_size(mode) {
        None
    } else {
        let flagged_id = spec_field(mode, bytes, 0);
        Some(
            (
                flagged_id % subatt_flag(mode),
                RawAtt {
                    has_subatt: flagged_id >= subatt_flag(mode),
                    payload_size: spec_field(mode, bytes, 1),
                    payload: RawPayload::Data(Seq::empty()),
                },
            ),
        )
    }
}

/// The attribute at the start of `bytes`, with its id and the number of bytes it
/// takes; `None` where `bytes` ends before the attribute does.
pub open spec fn spec_decode_att(mode: LcsfModeEnum, bytes: Seq<u8>) -> Option<(u16, RawAtt, nat)>
    decreases bytes.len(), 0nat,
{
    match spec_fetch_att_header(mode, bytes) {
        None => None,
        Some((id, head)) => {
            let body = bytes.skip(att_header_size(mode) as int);
            if head.has_subatt {
                match spec_decode_atts(mode, body, head.payload_size as nat) {
                    None => None,
                    Some((subatts, used)) => Some(
                        (
                            id,
                            RawAtt {
                                has_subatt: true,
                                payload_size: head.payload_size,
                                payload: RawPayload::SubattArr(subatts),
                            },
                            att_header_size(mode) + used,
                        ),
                    ),
                }
            } else if body.len() < head.payload_size {
                None
            } else {
                Some(
                    (
                        id,
                        RawAtt {
                            has_subatt: false,
                            payload_size: head.payload_size,
                            payload: RawPayload::Data(body.take(head.payload_size as int)),
                        },
                        att_header_size(mode) + head.payload_size as nat,
                    ),
                )
            }
        },
    }
}

/// The `count` attributes at the start of `bytes`, one after the other, with
/// the number of bytes they take together; `None` where one of them is cut
/// short. (An attribute never takes more bytes than there are: the test on
/// `used` only shows that the definition is well founded.)
pub open spec fn spec_decode_atts(mode: LcsfModeEnum, bytes: Seq<u8>, count: nat) -> Option<
    (Seq<(u16, RawAtt)>, nat),
>
    decreases bytes.len(), 1 + count,
{
    if count == 0 {
        Some((Seq::empty(), 0))
    } else {
        match spec_decode_att(mode, bytes) {
            None => None,
            Some((id, att, used)) => if used > bytes.len() {
                None
            } else {
                match spec_decode_atts(mode, bytes.skip(used as int), (count - 1) as nat) {
                    None => None,
                    Some((rest, used_rest)) => Some((seq![(id, att)] + rest, used + used_rest)),
                }
            },
        }
    }
}

/// The message that `bytes` holds: a header, then as many attributes as the
/// header announces, then nothing; `None` where `bytes` is anything else.
pub open spec fn spec_decode_buff(mode: LcsfModeEnum, bytes: Seq<u8>) -> Option<RawMsg> {
    match spec_fetch_msg_header(mode, bytes) {
        None => None,
        Some(head) => match spec_decode_atts(
            mode,
            bytes.skip(msg_header_size(mode) as int),
            head.att_nb as nat,
        ) {
            None => None,
            Some((atts, used)) => if msg_header_size(mode) + used == bytes.len() {
                Some(
                    RawMsg {
                        prot_id: head.prot_id,
                        cmd_id: head.cmd_id,
                        att_nb: head.att_nb,
                        att_arr: atts,
                    },
                )
            } else {
                None
            },
        },
    }
}

/// Reads one structural field.
fn fetch_field(lcsf_mode: LcsfModeEnum, buff_iter: &mut LcsfBuffIter) -> (res: Option<u16>)
    ensures
        old(buff_iter)@.len() < field_size(lcsf_mode) ==> res is None && final(buff_iter)@
            == old(buff_iter)@,
        old(buff_iter)@.len() >= field_size(lcsf_mode) ==> res == Some(
            spec_field(lcsf_mode, old(buff_iter)@, 0),
        ) && final(buff_iter)@ == old(buff_iter)@.skip(field_size(lcsf_mode) as int),
{
    match lcsf_mode {
        LcsfModeEnum::Small => {
            match buff_iter.next() {
                None => None,
                Some(byte) => Some(byte as u16),
            }
        },
        LcsfModeEnum::Normal => {
            if buff_iter.len() < 2 {
                return None;
            }
            let lsb: u8 = buff_iter.next().unwrap();
            let msb: u8 = buff_iter.next().unwrap();
            assert(buff_iter@ =~= old(buff_iter)@.skip(2));
            Some(lsb as u16 + (msb as u16) * 256)
        },
    }
}

/// Reads a message header: protocol id, command id and attribute number.
/// Reads nothing where the buffer ends before the header does.
pub fn fetch_msg_header(lcsf_mode: LcsfModeEnum, buff_iter: &mut LcsfBuffIter) -> (res: Option<
    LcsfRawMsg,
>)
    ensures
        match spec_fetch_msg_header(lcsf_mode, old(buff_iter)@) {
            Some(msg) => res is Some && res->0@ == msg && final(buff_iter)@ == old(buff_iter)@.skip(
                msg_header_size(lcsf_mode) as int,
            ),
            None => res is None && final(buff_iter)@ == old(buff_iter)@,
        },
{
    let header_size: usize = match lcsf_mode {
        LcsfModeEnum::Small => 3,
        LcsfModeEnum::Normal => 6,
    };
    if buff_iter.len() < header_size {
        return None;
    }
    let ghost bytes = buff_iter@;
    let prot_id: u16 = fetch_field(lcsf_mode, buff_iter).unwrap();
    let cmd_id: u16 = fetch_field(lcsf_mode, buff_iter).unwrap();
    let att_nb: u16 = fetch_field(lcsf_mode, buff_iter).unwrap();
    let msg = LcsfRawMsg { prot_id, cmd_id, att_nb, att_arr: Vec::new() };
    proof {
        assert(buff_iter@ =~= bytes.skip(msg_header_size(lcsf_mode) as int));
        assert(msg@.att_arr =~= Seq::empty());
    }
    Some(msg)
}

/// Reads an attribute header: the id, freed of its flag, and an attribute that
/// holds the flag and the payload size, with no payload yet. Reads nothing
/// where the buffer ends before the header does.
pub fn fetch_att_header(lcsf_mode: LcsfModeEnum, buff_iter: &mut LcsfBuffIter) -> (res: Option<
    (u16, LcsfRawAtt),
>)
    ensures
        match spec_fetch_att_header(lcsf_mode, old(buff_iter)@) {
            Some((id, att)) => res is Some && res.unwrap().0 == id && res.unwrap().1@ == att
                && final(buff_iter)@ == old(buff_iter)@.skip(att_header_size(lcsf_mode) as int),
            None => res is None && final(buff_iter)@ == old(buff_iter)@,
        },
{
    let (header_size, flag): (usize, u16) = match lcsf_mode {
        LcsfModeEnum::Small => (2, 0x80),
        LcsfModeEnum::Normal => (4, 0x8000),
    };
    if buff_iter.len() < header_size {
        return None;
    }
    let ghost bytes = buff_iter@;
    let flagged_id: u16 = fetch_field(lcsf_mode, buff_iter).unwrap();
    let payload_size: u16 = fetch_field(lcsf_mode, buff_iter).unwrap();
    let att = LcsfRawAtt {
        has_subatt: flagged_id >= flag,
        payload_size,
        payload: LcsfRawAttPayload::Data(Vec::new()),
    };
    proof {
        assert(buff_iter@ =~= bytes.skip(att_header_size(lcsf_mode) as int));
        assert(att@.payload->Data_0 =~= Seq::empty());
    }
    Some((flagged_id % flag, att))
}

/// Reads `count` attributes one after the other. Reads nothing where one of
/// them is cut short.
fn decode_att_arr(lcsf_mode: LcsfModeEnum, buff_iter: &mut LcsfBuffIter, count: u16) -> (res:
    Result<Vec<(u16, LcsfRawAtt)>, LcsfDecodeErrorEnum>)
    ensures
        match spec_decode_atts(lcsf_mode, old(buff_iter)@, count as nat) {
            Some((atts, used)) => res is Ok && raw_atts_view(res->Ok_0@) == atts && used
                <= old(buff_iter)@.len() && final(buff_iter)@ == old(buff_iter)@.skip(used as int),
            None => res == Err::<Vec<(u16, LcsfRawAtt)>, _>(LcsfDecodeErrorEnum::FormatErr)
                && final(buff_iter)@ == old(buff_iter)@,
        },
    decreases old(buff_iter)@.len(), 1 + count,
{
    let start = *buff_iter;
    let ghost bytes = buff_iter@;
    let mut att_arr: Vec<(u16, LcsfRawAtt)> = Vec::new();
    let mut idx: u16 = 0;
    proof {
        assert(bytes.skip(0) =~= bytes);
        assert(raw_atts_view(att_arr@) =~= Seq::empty());
        assert(forall|rest: Seq<(u16, RawAtt)>| #[trigger]
            (Seq::<(u16, RawAtt)>::empty() + rest) =~= rest);
    }
    while idx < count
        invariant
            idx <= count,
            start@ == bytes,
            old(buff_iter)@ == bytes,
            bytes.len() >= buff_iter@.len(),
            buff_iter@ == bytes.skip(bytes.len() - buff_iter@.len()),
            spec_decode_atts(lcsf_mode, bytes, count as nat) == match spec_decode_atts(
                lcsf_mode,
                buff_iter@,
                (count - idx) as nat,
            ) {
                Some((rest, used)) => Some(
                    (
                        raw_atts_view(att_arr@) + rest,
                        (bytes.len() - buff_iter@.len() + used) as nat,
                    ),
                ),
                None => None,
            },
        decreases count - idx,
    {
        let ghost before = buff_iter@;
        let ghost done = raw_atts_view(att_arr@);
        match decode_att_rec(lcsf_mode, buff_iter) {
            Err(err) => {
                *buff_iter = start;
                return Err(err);
            },
            Ok(att) => {
                proof {
                    let (id, model, used) = spec_decode_att(lcsf_mode, before).unwrap();
                    assert(buff_iter@ =~= bytes.skip(bytes.len() - buff_iter@.len()));
                    assert(raw_atts_view(att_arr@.push(att)) =~= done + seq![(id, model)]);
                    assert(forall|rest: Seq<(u16, RawAtt)>| #[trigger]
                        (done + (seq![(id, model)] + rest)) =~= (done + seq![(id, model)]) + rest);
                }
                att_arr.push(att);
                idx += 1;
            },
        }
    }
    proof {
        assert(raw_atts_view(att_arr@) + Seq::<(u16, RawAtt)>::empty() =~= raw_atts_view(att_arr@));
    }
    Ok(att_arr)
}

/// Reads one attribute, with the sub-attributes it announces, and so on down.
/// Fails with `FormatErr`, and reads nothing, where the buffer ends before the
/// attribute does.
pub fn decode_att_rec(lcsf_mode: LcsfModeEnum, buff_iter: &mut LcsfBuffIter) -> (res: Result<
    (u16, LcsfRawAtt),
    LcsfDecodeErrorEnum,
>)
    ensures
        match spec_decode_att(lcsf_mode, old(buff_iter)@) {
            Some((id, att, used)) => res is Ok && res.unwrap().0 == id && res.unwrap().1@ == att
                && 0 < used <= old(buff_iter)@.len() && final(buff_iter)@ == old(buff_iter)@.skip(
                used as int,
            ),
            None => res == Err::<(u16, LcsfRawAtt), _>(LcsfDecodeErrorEnum::FormatErr)
                && final(buff_iter)@ == old(buff_iter)@,
        },
    decreases old(buff_iter)@.len(), 0nat,
{
    let start = *buff_iter;
    let ghost bytes = buff_iter@;
    let (att_id, header) = match fetch_att_header(lcsf_mode, buff_iter) {
        None => {
            return Err(LcsfDecodeErrorEnum::FormatErr);
        },
        Some(found) => found,
    };
    let ghost body = buff_iter@;
    if header.has_subatt {
        match decode_att_arr(lcsf_mode, buff_iter, header.payload_size) {
            Err(err) => {
                *buff_iter = start;
                Err(err)
            },
            Ok(subatt_arr) => {
                let att = LcsfRawAtt {
                    has_subatt: true,
                    payload_size: header.payload_size,
                    payload: LcsfRawAttPayload::SubattArr(subatt_arr),
                };
                proof {
                    let (_, used) = spec_decode_atts(
                        lcsf_mode,
                        body,
                        header.payload_size as nat,
                    ).unwrap();
                    assert(buff_iter@ =~= bytes.skip((att_header_size(lcsf_mode) + used) as int));
                }
                Ok((att_id, att))
            },
        }
    } else {
        match buff_iter.take(header.payload_size as usize) {
            None => {
                *buff_iter = start;
                Err(LcsfDecodeErrorEnum::FormatErr)
            },
            Some(data) => {
                let att = LcsfRawAtt {
                    has_subatt: false,
                    payload_size: header.payload_size,
                    payload: LcsfRawAttPayload::Data(data),
                };
                proof {
                    assert(buff_iter@ =~= bytes.skip(
                        att_header_size(lcsf_mode) + header.payload_size,
                    ));
                }
                Ok((att_id, att))
            },
        }
    }
}

/// Decodes a whole buffer into a raw message.
///
/// Succeeds exactly when the buffer holds a message header, then the
/// attributes that the header announces, each with the payload or the
/// sub-attributes that its own header announces, and nothing after them. Any
/// other buffer gives `FormatErr`; no buffer gives `OverflowErr`, whatever
/// its size or the depth of its attributes. In a decoded message every
/// announced number is the number of what follows, and every id and size
/// fits the mode; written in full, it is the buffer. Its attributes are no
/// deeper than the buffer can hold attribute headers after the message
/// header: a caller that bounds the buffer bounds the depth.
pub fn decode_buff(lcsf_mode: LcsfModeEnum, buffer: &[u8]) -> (res: Result<
    LcsfRawMsg,
    LcsfDecodeErrorEnum,
>)
    ensures
        match spec_decode_buff(lcsf_mode, buffer@) {
            Some(msg) => res is Ok && res->Ok_0@ == msg,
            None => res == Err::<LcsfRawMsg, _>(LcsfDecodeErrorEnum::FormatErr),
        },
        buffer@.len() < msg_header_size(lcsf_mode) ==> res == Err::<LcsfRawMsg, _>(
            LcsfDecodeErrorEnum::FormatErr,
        ),
        res is Err ==> res->Err_0 == LcsfDecodeErrorEnum::FormatErr,
        res is Ok ==> raw_msg_wf(res->Ok_0@) && raw_msg_fits(lcsf_mode, res->Ok_0@)
            && spec_wire_buff(lcsf_mode, res->Ok_0@) == buffer@,
        res is Ok ==> msg_header_size(lcsf_mode) + raw_atts_depth(res->Ok_0@.att_arr)
            * att_header_size(lcsf_mode) <= buffer@.len(),
{
    proof {
        lemma_decode_buff_sound(lcsf_mode, buffer@);
        lemma_decode_buff_depth(lcsf_mode, buffer@);
        lemma_wire_decoded_buff(lcsf_mode, buffer@);
    }
    let mut buff_iter = LcsfBuffIter::new(buffer);
    let header = match fetch_msg_header(lcsf_mode, &mut buff_iter) {
        None => {
            return Err(LcsfDecodeErrorEnum::FormatErr);
        },
        Some(msg) => msg,
    };
    let att_arr = match decode_att_arr(lcsf_mode, &mut buff_iter, header.att_nb) {
        Err(err) => {
            return Err(err);
        },
        Ok(att_arr) => att_arr,
    };
    if buff_iter.len() != 0 {
        return Err(LcsfDecodeErrorEnum::FormatErr);
    }
    Ok(
        LcsfRawMsg {
            prot_id: header.prot_id,
            cmd_id: header.cmd_id,
            att_nb: header.att_nb,
            att_arr,
        },
    )
}

// *** Encoder ***

/// The bytes of a message header.
pub open spec fn spec_fill_msg_header(mode: LcsfModeEnum, msg: RawMsg) -> Seq<u8> {
    spec_field_bytes(mode, msg.prot_id) + spec_field_bytes(mode, msg.cmd_id) + spec_field_bytes(
        mode,
        msg.att_nb,
    )
}

/// The id field of an attribute header: the id, cut to the bits below the
/// flag, and the flag above them where the attribute has sub-attributes.
pub open spec fn spec_flagged_id(mode: LcsfModeEnum, att_id: u16, has_subatt: bool) -> u16 {
    let low = att_id % subatt_flag(mode);
    if has_subatt {
        (low + subatt_flag(mode)) as u16
    } else {
        low
    }
}

/// The bytes of an attribute header.
pub open spec fn spec_fill_att_header(mode: LcsfModeEnum, att_id: u16, att: RawAtt) -> Seq<u8> {
    spec_field_bytes(mode, spec_flagged_id(mode, att_id, att.has_subatt)) + spec_field_bytes(
        mode,
        att.payload_size,
    )
}

/// The bytes of an attribute: nothing for one whose payload size is zero,
/// else its header followed by its data or by its sub-attributes.
pub open spec fn spec_encode_att(mode: LcsfModeEnum, att_id: u16, att: RawAtt) -> Seq<u8>
    decreases att,
{
    if att.payload_size == 0 {
        Seq::empty()
    } else {
        spec_fill_att_header(mode, att_id, att) + match att.payload {
            RawPayload::Data(data) => data,
            RawPayload::SubattArr(subatts) => spec_encode_atts(mode, subatts),
        }
    }
}

/// The bytes of a list of attributes, one after the other.
pub open spec fn spec_encode_atts(mode: LcsfModeEnum, atts: Seq<(u16, RawAtt)>) -> Seq<u8>
    decreases atts,
{
    if atts.len() == 0 {
        Seq::empty()
    } else {
        spec_encode_att(mode, atts[0].0, atts[0].1) + spec_encode_atts(mode, atts.skip(1))
    }
}

/// The bytes of a message: its header, then its attributes.
pub open spec fn spec_encode_buff(mode: LcsfModeEnum, msg: RawMsg) -> Seq<u8> {
    spec_fill_msg_header(mode, msg) + spec_encode_atts(mode, msg.att_arr)
}

/// The bytes of an attribute written in full: its header followed by its
/// data or by its sub-attributes, whatever its payload size.
pub open spec fn spec_wire_att(mode: LcsfModeEnum, att_id: u16, att: RawAtt) -> Seq<u8>
    decreases att,
{
    spec_fill_att_header(mode, att_id, att) + match att.payload {
        RawPayload::Data(data) => data,
        RawPayload::SubattArr(subatts) => spec_wire_atts(mode, subatts),
    }
}

/// The bytes of a list of attributes written in full, one after the other.
pub open spec fn spec_wire_atts(mode: LcsfModeEnum, atts: Seq<(u16, RawAtt)>) -> Seq<u8>
    decreases atts,
{
    if atts.len() == 0 {
        Seq::empty()
    } else {
        spec_wire_att(mode, atts[0].0, atts[0].1) + spec_wire_atts(mode, atts.skip(1))
    }
}

/// The bytes of a message written in full: its header, then all its
/// attributes. This is what decoding reads.
pub open spec fn spec_wire_buff(mode: LcsfModeEnum, msg: RawMsg) -> Seq<u8> {
    spec_fill_msg_header(mode, msg) + spec_wire_atts(mode, msg.att_arr)
}

/// A list of raw attributes without those whose payload size is zero, at this
/// level and below: what encoding writes of the list.
pub open spec fn drop_absent(atts: Seq<(u16, RawAtt)>) -> Seq<(u16, RawAtt)>
    decreases atts, 1nat,
{
    if atts.len() == 0 {
        Seq::empty()
    } else if atts[0].1.payload_size == 0 {
        drop_absent(atts.skip(1))
    } else {
        seq![(atts[0].0, drop_absent_in(atts[0].1))] + drop_absent(atts.skip(1))
    }
}

/// A raw attribute without the sub-attributes whose payload size is zero.
pub open spec fn drop_absent_in(att: RawAtt) -> RawAtt
    decreases att, 0nat,
{
    match att.payload {
        RawPayload::Data(_) => att,
        RawPayload::SubattArr(subatts) => RawAtt {
            has_subatt: att.has_subatt,
            payload_size: att.payload_size,
            payload: RawPayload::SubattArr(drop_absent(subatts)),
        },
    }
}

/// Writes one structural field, cut to the width of the mode.
fn fill_field(lcsf_mode: LcsfModeEnum, value: u16, buffer: &mut Vec<u8>)
    ensures
        final(buffer)@ == old(buffer)@ + spec_field_bytes(lcsf_mode, value),
{
    match lcsf_mode {
        LcsfModeEnum::Small => {
            buffer.push((value % 256) as u8);
            assert(buffer@ =~= old(buffer)@ + spec_field_bytes(lcsf_mode, value));
        },
        LcsfModeEnum::Normal => {
            buffer.push((value % 256) as u8);
            buffer.push((value / 256) as u8);
            assert(buffer@ =~= old(buffer)@ + spec_field_bytes(lcsf_mode, value));
        },
    }
}

/// Encodes a message header. Only the fields of the header are read; each is
/// cut to the width of the mode.
pub fn fill_msg_header(lcsf_mode: LcsfModeEnum, msg: &LcsfRawMsg) -> (buffer: Vec<u8>)
    ensures
        buffer@ == spec_fill_msg_header(lcsf_mode, msg@),
{
    let mut buffer: Vec<u8> = Vec::new();
    fill_field(lcsf_mode, msg.prot_id, &mut buffer);
    fill_field(lcsf_mode, msg.cmd_id, &mut buffer);
    fill_field(lcsf_mode, msg.att_nb, &mut buffer);
    assert(buffer@ =~= spec_fill_msg_header(lcsf_mode, msg@));
    buffer
}

/// Encodes an attribute header: the id with the sub-attribute flag in its top
/// bit, then the payload size.
pub fn fill_att_header(lcsf_mode: LcsfModeEnum, att_id: u16, att: &LcsfRawAtt) -> (buffer: Vec<u8>)
    ensures
        buffer@ == spec_fill_att_header(lcsf_mode, att_id, att@),
{
    let flag: u16 = match lcsf_mode {
        LcsfModeEnum::Small => 0x80,
        LcsfModeEnum::Normal => 0x8000,
    };
    let flagged_id: u16 = if att.has_subatt {
        att_id % flag + flag
    } else {
        att_id % flag
    };
    let mut buffer: Vec<u8> = Vec::new();
    fill_field(lcsf_mode, flagged_id, &mut buffer);
    fill_field(lcsf_mode, att.payload_size, &mut buffer);
    assert(buffer@ =~= spec_fill_att_header(lcsf_mode, att_id, att@));
    buffer
}

/// Encodes a list of attributes one after the other, at the end of `buffer`.
fn encode_att_arr(lcsf_mode: LcsfModeEnum, att_arr: &Vec<(u16, LcsfRawAtt)>, buffer: &mut Vec<u8>)
    ensures
        final(buffer)@ == old(buffer)@ + spec_encode_atts(lcsf_mode, raw_atts_view(att_arr@)),
    decreases att_arr,
{
    let ghost atts = raw_atts_view(att_arr@);
    let mut idx: usize = 0;
    proof {
        assert(atts.skip(0) =~= atts);
    }
    while idx < att_arr.len()
        invariant
            idx <= att_arr.len(),
            atts == raw_atts_view(att_arr@),
            buffer@ + spec_encode_atts(lcsf_mode, atts.skip(idx as int)) == old(buffer)@
                + spec_encode_atts(lcsf_mode, atts),
        decreases att_arr.len() - idx,
    {
        proof {
            assert(decreases_to!(att_arr@ => att_arr@[idx as int]));
            assert(atts.skip(idx as int).skip(1) =~= atts.skip(idx + 1));
        }
        let ghost before = buffer@;
        let mut part = encode_att_rec(lcsf_mode, att_arr[idx].0, &att_arr[idx].1);
        buffer.append(&mut part);
        proof {
            let one = spec_encode_att(lcsf_mode, atts[idx as int].0, atts[idx as int].1);
            let rest = spec_encode_atts(lcsf_mode, atts.skip(idx + 1));
            assert((before + one) + rest =~= before + (one + rest));
        }
        idx += 1;
    }
    proof {
        assert(buffer@ + Seq::<u8>::empty() =~= buffer@);
    }
}

/// Encodes one attribute, with its sub-attributes and so on down. An attribute
/// whose payload size is zero gives no byte at all.
pub fn encode_att_rec(lcsf_mode: LcsfModeEnum, att_id: u16, att: &LcsfRawAtt) -> (buffer: Vec<u8>)
    ensures
        buffer@ == spec_encode_att(lcsf_mode, att_id, att@),
    decreases att,
{
    if att.payload_size == 0 {
        return Vec::new();
    }
    let mut buffer = fill_att_header(lcsf_mode, att_id, att);
    match &att.payload {
        LcsfRawAttPayload::Data(data) => {
            let mut part = copy_bytes(data);
            buffer.append(&mut part);
        },
        LcsfRawAttPayload::SubattArr(subatt_arr) => {
            proof {
                assert(decreases_to!(att.payload => att.payload->SubattArr_0));
            }
            encode_att_arr(lcsf_mode, subatt_arr, &mut buffer);
        },
    }
    buffer
}

/// Encodes a raw message: the header, then each attribute in the order of the
/// list. Attributes whose payload size is zero are left out; the header and
/// the sizes are written as the message holds them, each cut to the width of
/// its field.
pub fn encode_buff(lcsf_mode: LcsfModeEnum, msg: &LcsfRawMsg) -> (buffer: Vec<u8>)
    ensures
        buffer@ == spec_encode_buff(lcsf_mode, msg@),
{
    let mut buffer = fill_msg_header(lcsf_mode, msg);
    encode_att_arr(lcsf_mode, &msg.att_arr, &mut buffer);
    buffer
}

/// Copies a list of bytes.
pub(crate) fn copy_bytes(data: &Vec<u8>) -> (out: Vec<u8>)
    ensures
        out@ == data@,
{
    let mut out: Vec<u8> = Vec::new();
    let mut idx: usize = 0;
    while idx < data.len()
        invariant
            idx <= data.len(),
            out@ == data@.take(idx as int),
        decreases data.len() - idx,
    {
        out.push(data[idx]);
        idx += 1;
    }
    assert(data@.take(data.len() as int) == data@);
    out
}

/// Copies a list of attributes, each with its id.
fn clone_att_arr(att_arr: &Vec<(u16, LcsfRawAtt)>) -> (out: Vec<(u16, LcsfRawAtt)>)
    ensures
        raw_atts_view(out@) == raw_atts_view(att_arr@),
    decreases att_arr,
{
    let mut out: Vec<(u16, LcsfRawAtt)> = Vec::new();
    let mut idx: usize = 0;
    while idx < att_arr.len()
        invariant
            idx <= att_arr.len(),
            out.len() == idx,
            forall|j: int|
                0 <= j < idx ==> out@[j].0 == att_arr@[j].0 && out@[j].1@ == att_arr@[j].1@,
        decreases att_arr.len() - idx,
    {
        proof {
            assert(decreases_to!(att_arr@ => att_arr@[idx as int]));
        }
        let att = att_arr[idx].1.clone();
        out.push((att_arr[idx].0, att));
        idx += 1;
    }
    assert(raw_atts_view(out@) =~= raw_atts_view(att_arr@));
    out
}

impl Clone for LcsfRawAtt {
    fn clone(&self) -> (res: Self)
        ensures
            res@ == self@,
        decreases self,
    {
        let payload = match &self.payload {
            LcsfRawAttPayload::Data(data) => LcsfRawAttPayload::Data(copy_bytes(data)),
            LcsfRawAttPayload::SubattArr(subatt_arr) => {
                proof {
                    assert(decreases_to!(self.payload => self.payload->SubattArr_0));
                }
                LcsfRawAttPayload::SubattArr(clone_att_arr(subatt_arr))
            },
        };
        LcsfRawAtt { has_subatt: self.has_subatt, payload_size: self.payload_size, payload }
    }
}

impl Clone for LcsfRawAttPayload {
    fn clone(&self) -> (res: Self)
        ensures
            match (*self, res) {
                (LcsfRawAttPayload::Data(data), LcsfRawAttPayload::Data(copy)) => copy@ == data@,
                (
                    LcsfRawAttPayload::SubattArr(subatts),
                    LcsfRawAttPayload::SubattArr(copy),
                ) => raw_atts_view(copy@) == raw_atts_view(subatts@),
                _ => false,
            },
    {
        match self {
            LcsfRawAttPayload::Data(data) => LcsfRawAttPayload::Data(copy_bytes(data)),
            LcsfRawAttPayload::SubattArr(subatt_arr) => LcsfRawAttPayload::SubattArr(
                clone_att_arr(subatt_arr),
            ),
        }
    }
}

impl Clone for LcsfRawMsg {
    fn clone(&self) -> (res: Self)
        ensures
            res@ == self@,
    {
        LcsfRawMsg {
            prot_id: self.prot_id,
            cmd_id: self.cmd_id,
            att_nb: self.att_nb,
            att_arr: clone_att_arr(&self.att_arr),
        }
    }
}

} // verus!
