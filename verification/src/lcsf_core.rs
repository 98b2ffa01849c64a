//! The dispatch core: it sequences decoding, validation and dispatch for a
//! received buffer, and validation and encoding for a command to send.
//!
//! The core decides and its caller acts: what is received comes back as the
//! callback to call with the validated command, or as the answer to send;
//! what is to be sent comes back as bytes for the send hook.

use crate::lcsf_error::{
    encode_error, ep_prot_id, lcsf_ep_prot_desc, lemma_error_msg_decodes,
    lemma_error_msg_validates, spec_encode_error, spec_ep_prot_desc, spec_ep_prot_id,
    spec_error_cmd, spec_error_msg, spec_loc_code, LcsfEpLocEnum,
};
use crate::lcsf_transcoder::{
    decode_buff, drop_absent, encode_buff, field_max, raw_atts_no_empty, spec_decode_buff,
    spec_decode_error_code, spec_encode_buff, spec_wire_buff, LcsfDecodeErrorEnum, LcsfModeEnum,
    LcsfRawMsg, RawMsg,
};
use crate::lcsf_transcoder_proof::{
    lemma_decode_buff_sound, lemma_decode_wired_buff, lemma_encode_atts_is_wire,
    lemma_encode_decoded_buff,
};
use crate::lcsf_validator::{
    att_descs_fit, att_descs_wf, encode_valid, find_last, lemma_find_last_same_ids,
    prot_table_view, spec_cnt_non_empty_att, spec_encode_valid, spec_find_cmd_desc,
    spec_validate_error_code, spec_validate_msg, valid_atts_canonical, valid_atts_fit,
    validate_msg, LcsfProtDesc, LcsfValidCmd, LcsfValidateErrorEnum, ProtDesc, ValidCmd,
};
use crate::lcsf_validator_roundtrip::{
    lemma_encode_valid_then_validate, lemma_filled_atts_sound, lemma_validate_filled_atts,
    lemma_validate_then_encode_bytes_in_order, raw_atts_in_order,
};
use std::collections::HashMap;
use vstd::prelude::*;

verus! {

broadcast use vstd::std_specs::hash::group_hash_axioms;

/// Reasons for which a command cannot be sent: each of them shows that the
/// caller built a command that does not follow its own registered descriptor.
#[derive(Debug, PartialEq, Eq, Structural, Copy, Clone)]
pub enum LcsfSendErrorEnum {
    /// No protocol is registered under the protocol id.
    UnknownProtId,
    /// The protocol's descriptor has no command with the command's id.
    UnknownCmdId,
    /// The command does not follow the descriptor of its id.
    InvalidCmd,
}

/// Mathematical value of the answer to a refused message.
pub open spec fn reply_view(reply: Option<Vec<u8>>) -> Option<Seq<u8>> {
    match reply {
        Some(bytes) => Some(bytes@),
        None => None,
    }
}

/// The dispatch core: the wire mode, the hook that sends bytes, and the table
/// of registered protocols, each with its descriptor and its callback.
///
/// The core decides; it calls neither the hook nor the callbacks. `S` is the
/// type of the send hook and `C` that of the callbacks that process a
/// validated command.
#[derive(Debug)]
pub struct LcsfCore<S, C> {
    /// Whether a refused message is answered with an error message.
    do_gen_err: bool,
    /// Wire mode, fixed at construction.
    lcsf_mode: LcsfModeEnum,
    /// Hook that sends encoded bytes.
    fn_send: S,
    /// Descriptor of each registered protocol.
    prot_desc_map: HashMap<u16, LcsfProtDesc>,
    /// Callback of each registered protocol.
    prot_cb_map: HashMap<u16, C>,
}

impl<S, C> LcsfCore<S, C> {
    /// The wire mode.
    pub closed spec fn mode(self) -> LcsfModeEnum {
        self.lcsf_mode
    }

    /// Whether a refused message is answered with an error message.
    pub closed spec fn gen_err(self) -> bool {
        self.do_gen_err
    }

    /// The send hook.
    pub closed spec fn send_cb(self) -> S {
        self.fn_send
    }

    /// The descriptors of the registered protocols, by protocol id.
    pub closed spec fn prot_descs(self) -> Map<u16, ProtDesc> {
        prot_table_view(self.prot_desc_map@)
    }

    /// The callbacks of the registered protocols, by protocol id.
    pub closed spec fn prot_cbs(self) -> Map<u16, C> {
        self.prot_cb_map@
    }

    /// Whether every registered protocol has a descriptor and a callback, and
    /// the error protocol is registered. This holds of every core that `new`
    /// made, whatever was registered since.
    pub open spec fn wf(self) -> bool {
        &&& self.prot_descs().dom() == self.prot_cbs().dom()
        &&& self.prot_descs().contains_key(spec_ep_prot_id(self.mode()))
    }

    /// Creates a core for the given wire mode, with the error protocol
    /// registered under that mode's reserved id, `err_cb` as its callback.
    pub fn new(mode: LcsfModeEnum, send_cb: S, err_cb: C, do_gen_err: bool) -> (core: Self)
        ensures
            core.wf(),
            core.mode() == mode,
            core.gen_err() == do_gen_err,
            core.send_cb() == send_cb,
            core.prot_descs() == Map::<u16, ProtDesc>::empty().insert(
                spec_ep_prot_id(mode),
                spec_ep_prot_desc(),
            ),
            core.prot_cbs() == Map::<u16, C>::empty().insert(spec_ep_prot_id(mode), err_cb),
    {
        let err_prot_id: u16 = ep_prot_id(mode);
        let mut prot_desc_map: HashMap<u16, LcsfProtDesc> = HashMap::new();
        prot_desc_map.insert(err_prot_id, lcsf_ep_prot_desc());
        let mut prot_cb_map: HashMap<u16, C> = HashMap::new();
        prot_cb_map.insert(err_prot_id, err_cb);
        proof {
            assert(prot_table_view(prot_desc_map@).dom() =~= prot_cb_map@.dom());
            assert(prot_table_view(prot_desc_map@) =~= Map::<u16, ProtDesc>::empty().insert(
                spec_ep_prot_id(mode),
                spec_ep_prot_desc(),
            ));
        }
        LcsfCore { do_gen_err, lcsf_mode: mode, fn_send: send_cb, prot_desc_map, prot_cb_map }
    }

    /// Replaces the callback of the error protocol.
    pub fn update_err_cb(&mut self, new_err_cb: C)
        ensures
            old(self).wf() ==> final(self).wf(),
            final(self).mode() == old(self).mode(),
            final(self).gen_err() == old(self).gen_err(),
            final(self).send_cb() == old(self).send_cb(),
            final(self).prot_descs() == old(self).prot_descs(),
            final(self).prot_cbs() == old(self).prot_cbs().insert(
                spec_ep_prot_id(old(self).mode()),
                new_err_cb,
            ),
    {
        let err_prot_id: u16 = ep_prot_id(self.lcsf_mode);
        self.prot_cb_map.insert(err_prot_id, new_err_cb);
        proof {
            if old(self).wf() {
                assert(self.prot_descs().dom() =~= self.prot_cbs().dom());
            }
        }
    }

    /// Registers a protocol, or replaces the one registered under `prot_id`,
    /// the error protocol's id included.
    pub fn add_protocol(&mut self, prot_id: u16, prot_desc: LcsfProtDesc, prot_cb: C)
        ensures
            old(self).wf() ==> final(self).wf(),
            final(self).mode() == old(self).mode(),
            final(self).gen_err() == old(self).gen_err(),
            final(self).send_cb() == old(self).send_cb(),
            final(self).prot_descs() == old(self).prot_descs().insert(prot_id, prot_desc@),
            final(self).prot_cbs() == old(self).prot_cbs().insert(prot_id, prot_cb),
    {
        let ghost desc = prot_desc@;
        self.prot_desc_map.insert(prot_id, prot_desc);
        self.prot_cb_map.insert(prot_id, prot_cb);
        proof {
            assert(prot_table_view(self.prot_desc_map@) =~= prot_table_view(
                old(self).prot_desc_map@,
            ).insert(prot_id, desc));
            if old(self).wf() {
                assert(self.prot_descs().dom() =~= self.prot_cbs().dom());
            }
        }
    }

    /// The answer that a refused message gets: an error message where the core
    /// generates them, nothing otherwise.
    pub open spec fn spec_reply(self, error_loc: LcsfEpLocEnum, error_type: u8) -> Option<Seq<u8>> {
        if self.gen_err() {
            Some(spec_encode_error(self.mode(), spec_loc_code(error_loc), error_type))
        } else {
            None
        }
    }

    /// The bytes that sending a command gives, or the reason for which it
    /// cannot be sent.
    pub open spec fn spec_send_cmd(self, prot_id: u16, valid_cmd: ValidCmd) -> Result<
        Seq<u8>,
        LcsfSendErrorEnum,
    > {
        if !self.prot_descs().contains_key(prot_id) {
            Err(LcsfSendErrorEnum::UnknownProtId)
        } else {
            match spec_find_cmd_desc(self.prot_descs(), prot_id, valid_cmd.cmd_id) {
                None => Err(LcsfSendErrorEnum::UnknownCmdId),
                Some(cmd_desc) => match spec_encode_valid(prot_id, cmd_desc, valid_cmd) {
                    None => Err(LcsfSendErrorEnum::InvalidCmd),
                    Some(raw_msg) => Ok(spec_encode_buff(self.mode(), raw_msg)),
                },
            }
        }
    }

    /// Builds the answer to a refused message.
    fn gen_reply(&self, error_loc: LcsfEpLocEnum, error_type: u8) -> (reply: Option<Vec<u8>>)
        ensures
            reply_view(reply) == self.spec_reply(error_loc, error_type),
    {
        if self.do_gen_err {
            Some(encode_error(self.lcsf_mode, error_loc, error_type))
        } else {
            None
        }
    }

    /// Processes an incoming buffer: decodes it, validates the message against
    /// the registered protocols, and finds the callback of its protocol.
    ///
    /// On success, gives the callback to call and the validated command to
    /// call it with. On failure, gives the answer to send, if the core
    /// generates error messages: the error message of the decoder or of the
    /// validator, with the error's code. A protocol that had a descriptor and
    /// no callback would count as unknown; in a core made by `new` there is
    /// none, and every message that validation accepts is dispatched.
    pub fn receive_buff(&self, buff: &[u8]) -> (res: Result<(&C, LcsfValidCmd), Option<Vec<u8>>>)
        ensures
            match spec_decode_buff(self.mode(), buff@) {
                None => res is Err && reply_view(res->Err_0) == self.spec_reply(
                    LcsfEpLocEnum::DecodeError,
                    spec_decode_error_code(LcsfDecodeErrorEnum::FormatErr),
                ),
                Some(raw_msg) => match spec_validate_msg(self.prot_descs(), raw_msg) {
                    Err(err) => res is Err && reply_view(res->Err_0) == self.spec_reply(
                        LcsfEpLocEnum::ValidationError,
                        spec_validate_error_code(err),
                    ),
                    Ok((valid_cmd, prot_id)) => if self.prot_cbs().contains_key(prot_id) {
                        res is Ok && *res.unwrap().0 == self.prot_cbs()[prot_id]
                            && res.unwrap().1@ == valid_cmd
                    } else {
                        res is Err && reply_view(res->Err_0) == self.spec_reply(
                            LcsfEpLocEnum::ValidationError,
                            spec_validate_error_code(LcsfValidateErrorEnum::UnknownProtId),
                        )
                    },
                },
            },
            self.wf() ==> (res is Ok <==> (spec_decode_buff(self.mode(), buff@) matches Some(
                raw_msg,
            ) && spec_validate_msg(self.prot_descs(), raw_msg) is Ok)),
    {
        let raw_msg = match decode_buff(self.lcsf_mode, buff) {
            Err(err) => {
                return Err(self.gen_reply(LcsfEpLocEnum::DecodeError, err.code()));
            },
            Ok(msg) => msg,
        };
        let (valid_cmd, prot_id) = match validate_msg(&self.prot_desc_map, &raw_msg) {
            Err(err) => {
                return Err(self.gen_reply(LcsfEpLocEnum::ValidationError, err.code()));
            },
            Ok(found) => found,
        };
        match self.prot_cb_map.get(&prot_id) {
            Some(prot_cb) => Ok((prot_cb, valid_cmd)),
            None => Err(
                self.gen_reply(
                    LcsfEpLocEnum::ValidationError,
                    LcsfValidateErrorEnum::UnknownProtId.code(),
                ),
            ),
        }
    }

    /// Processes an incoming buffer without validation: decodes it.
    ///
    /// On failure, gives the answer to send, if the core generates error
    /// messages: the error message of the decoder, with the error's code.
    pub fn receive_raw(&self, buff: &[u8]) -> (res: Result<LcsfRawMsg, Option<Vec<u8>>>)
        ensures
            match spec_decode_buff(self.mode(), buff@) {
                None => res is Err && reply_view(res->Err_0) == self.spec_reply(
                    LcsfEpLocEnum::DecodeError,
                    spec_decode_error_code(LcsfDecodeErrorEnum::FormatErr),
                ),
                Some(raw_msg) => res is Ok && res->Ok_0@ == raw_msg,
            },
    {
        match decode_buff(self.lcsf_mode, buff) {
            Err(err) => Err(self.gen_reply(LcsfEpLocEnum::DecodeError, err.code())),
            Ok(msg) => Ok(msg),
        }
    }

    /// Encodes an outgoing validated command under the descriptor registered
    /// for its protocol and command ids (of several commands with that id, the
    /// last), and gives the bytes to send.
    pub fn send_cmd(&self, prot_id: u16, valid_cmd: &LcsfValidCmd) -> (res: Result<
        Vec<u8>,
        LcsfSendErrorEnum,
    >)
        ensures
            match self.spec_send_cmd(prot_id, valid_cmd@) {
                Ok(bytes) => res is Ok && res->Ok_0@ == bytes,
                Err(err) => res == Err::<Vec<u8>, _>(err),
            },
    {
        let prot_desc = match self.prot_desc_map.get(&prot_id) {
            None => {
                return Err(LcsfSendErrorEnum::UnknownProtId);
            },
            Some(desc) => desc,
        };
        proof {
            lemma_find_last_same_ids(
                prot_desc@.cmd_desc_arr,
                prot_desc.cmd_desc_arr@,
                valid_cmd.cmd_id,
            );
        }
        let cmd_desc = match find_last(prot_desc.cmd_desc_arr.as_slice(), valid_cmd.cmd_id) {
            None => {
                return Err(LcsfSendErrorEnum::UnknownCmdId);
            },
            Some(idx) => &prot_desc.cmd_desc_arr[idx].1,
        };
        match encode_valid(prot_id, cmd_desc, valid_cmd) {
            None => Err(LcsfSendErrorEnum::InvalidCmd),
            Some(raw_msg) => Ok(encode_buff(self.lcsf_mode, &raw_msg)),
        }
    }

    /// Encodes an outgoing raw message, without validation, and gives the
    /// bytes to send.
    pub fn send_raw(&self, raw_msg: &LcsfRawMsg) -> (buffer: Vec<u8>)
        ensures
            buffer@ == spec_encode_buff(self.mode(), raw_msg@),
    {
        encode_buff(self.lcsf_mode, raw_msg)
    }

    /// The wire mode.
    pub fn lcsf_mode(&self) -> (mode: LcsfModeEnum)
        ensures
            mode == self.mode(),
    {
        self.lcsf_mode
    }

    /// Whether a refused message is answered with an error message.
    pub fn do_gen_err(&self) -> (gen_err: bool)
        ensures
            gen_err == self.gen_err(),
    {
        self.do_gen_err
    }

    /// The send hook.
    pub fn fn_send(&self) -> (send_cb: &S)
        ensures
            *send_cb == self.send_cb(),
    {
        &self.fn_send
    }

    /// The descriptor registered under a protocol id, if there is one.
    pub fn prot_desc(&self, prot_id: u16) -> (res: Option<&LcsfProtDesc>)
        ensures
            self.prot_descs().contains_key(prot_id) ==> res is Some && res.unwrap()@
                == self.prot_descs()[prot_id],
            !self.prot_descs().contains_key(prot_id) ==> res is None,
    {
        self.prot_desc_map.get(&prot_id)
    }

    /// The callback registered under a protocol id, if there is one.
    pub fn prot_cb(&self, prot_id: u16) -> (res: Option<&C>)
        ensures
            self.prot_cbs().contains_key(prot_id) ==> res is Some && *res.unwrap()
                == self.prot_cbs()[prot_id],
            !self.prot_cbs().contains_key(prot_id) ==> res is None,
    {
        self.prot_cb_map.get(&prot_id)
    }

    /// Receiving, then sending: the command that a buffer gives, sent under
    /// the protocol id it came with, gives the buffer back.
    ///
    /// This holds of a buffer that the core receives and in which no payload
    /// size is zero and the attributes come in the order of their
    /// descriptors, where no two attributes of one level of the command's
    /// descriptor have the same id.
    pub proof fn lemma_received_is_sent_back(self, buff: Seq<u8>)
        requires
            spec_decode_buff(self.mode(), buff) matches Some(rx_msg) && {
                &&& raw_atts_no_empty(rx_msg.att_arr)
                &&& spec_validate_msg(self.prot_descs(), rx_msg) is Ok
                &&& spec_find_cmd_desc(self.prot_descs(), rx_msg.prot_id, rx_msg.cmd_id)
                    matches Some(cmd_desc) ==> att_descs_wf(cmd_desc.att_desc_arr)
                    && raw_atts_in_order(cmd_desc.att_desc_arr, rx_msg.att_arr)
            },
        ensures
            ({
                let rx_msg = spec_decode_buff(self.mode(), buff).unwrap();
                let (valid_cmd, prot_id) = spec_validate_msg(self.prot_descs(), rx_msg).unwrap();
                self.spec_send_cmd(prot_id, valid_cmd) == Ok::<Seq<u8>, LcsfSendErrorEnum>(buff)
            }),
    {
        let rx_msg = spec_decode_buff(self.mode(), buff).unwrap();
        lemma_decode_buff_sound(self.mode(), buff);
        lemma_encode_decoded_buff(self.mode(), buff);
        lemma_validate_then_encode_bytes_in_order(self.mode(), self.prot_descs(), rx_msg);
    }

    /// The answer to a refused message is read by a peer: a core of the same
    /// mode that holds the descriptor of the error protocol receives the
    /// error message as the error command of the location and type that were
    /// encoded.
    pub proof fn lemma_reply_is_read(self, loc_code: u8, error_type: u8)
        requires
            self.prot_descs().contains_key(spec_ep_prot_id(self.mode())),
            self.prot_descs()[spec_ep_prot_id(self.mode())] == spec_ep_prot_desc(),
        ensures
            spec_decode_buff(self.mode(), spec_encode_error(self.mode(), loc_code, error_type))
                == Some(spec_error_msg(self.mode(), loc_code, error_type)),
            spec_validate_msg(
                self.prot_descs(),
                spec_error_msg(self.mode(), loc_code, error_type),
            ) == Ok::<_, LcsfValidateErrorEnum>(
                (spec_error_cmd(loc_code, error_type), spec_ep_prot_id(self.mode())),
            ),
    {
        lemma_error_msg_decodes(self.mode(), loc_code, error_type);
        lemma_error_msg_validates(self.mode(), self.prot_descs(), loc_code, error_type);
    }

    /// Sending, then receiving: a command that is sent is received by a peer
    /// as the same command, under the same protocol id.
    ///
    /// This holds of a command such as validation can give under the
    /// descriptor registered for it, where protocol id, command id, the ids of
    /// the descriptor and the sizes of the command fit the mode, and no two
    /// attributes of one level of the descriptor have the same id. The peer is
    /// any core of the same mode with the same descriptors: here, this one.
    pub proof fn lemma_sent_is_received(self, prot_id: u16, valid_cmd: ValidCmd)
        requires
            prot_id <= field_max(self.mode()),
            valid_cmd.cmd_id <= field_max(self.mode()),
            spec_cnt_non_empty_att(valid_cmd.att_arr) <= field_max(self.mode()),
            valid_atts_fit(self.mode(), valid_cmd.att_arr),
            spec_find_cmd_desc(self.prot_descs(), prot_id, valid_cmd.cmd_id) matches Some(cmd_desc)
                && att_descs_wf(cmd_desc.att_desc_arr) && att_descs_fit(
                self.mode(),
                cmd_desc.att_desc_arr,
            ) && valid_atts_canonical(cmd_desc.att_desc_arr, valid_cmd.att_arr),
        ensures
            self.spec_send_cmd(prot_id, valid_cmd) matches Ok(buff) && (spec_decode_buff(
                self.mode(),
                buff,
            ) matches Some(rx_msg) && spec_validate_msg(self.prot_descs(), rx_msg) == Ok::<
                _,
                LcsfValidateErrorEnum,
            >((valid_cmd, prot_id))),
    {
        let mode = self.mode();
        let cmd_desc = spec_find_cmd_desc(self.prot_descs(), prot_id, valid_cmd.cmd_id).unwrap();
        lemma_encode_valid_then_validate(self.prot_descs(), prot_id, valid_cmd);
        lemma_validate_filled_atts(cmd_desc.att_desc_arr, valid_cmd.att_arr);
        lemma_filled_atts_sound(mode, cmd_desc.att_desc_arr, valid_cmd.att_arr);
        let raw_msg = spec_encode_valid(prot_id, cmd_desc, valid_cmd).unwrap();
        let written = RawMsg {
            prot_id: raw_msg.prot_id,
            cmd_id: raw_msg.cmd_id,
            att_nb: raw_msg.att_nb,
            att_arr: drop_absent(raw_msg.att_arr),
        };
        lemma_encode_atts_is_wire(mode, raw_msg.att_arr);
        assert(spec_encode_buff(mode, raw_msg) == spec_wire_buff(mode, written));
        lemma_decode_wired_buff(mode, written);
    }
}

} // verus!
