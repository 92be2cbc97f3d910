//! The protocol session handler's two decision points: turning a decoded
//! inbound message into ordered field writes on the registry, and turning a
//! registry change event into an outbound message — or none, while a
//! composite message's fields are not yet all known.
use vstd::prelude::*;

use crate::messages::AudioStream;
use crate::messages::BatLogInterval;
use crate::messages::DisplayName;
use crate::messages::InMsgV;
use crate::messages::MessageToServer;
use crate::messages::MessagesFromServer;
use crate::messages::MuteAudio;
use crate::messages::OutMsgV;
use crate::messages::TransmitAudio;
use crate::registry::ClientManager;
use crate::registry::RegistryError;
use crate::registry::cond_ch;
use crate::registry::push_all;
use crate::registry::tag_events;
use crate::state::ChangeV;
use crate::state::ClientState;
use crate::state::ClientStateChange;
use crate::state::ClientStateV;

verus! {

/// The state after the ordered field writes of one inbound message.
pub open spec fn message_applied(s: ClientStateV, m: InMsgV) -> ClientStateV {
    match m {
        InMsgV::Hello(n) => ClientStateV { client_name: Some(n), ..s },
        InMsgV::Ping => s,
        InMsgV::BatteryLevel(l, c) => ClientStateV {
            battery_level: Some(l),
            is_charging: Some(c),
            ..s
        },
        InMsgV::LogMsg(_) => s,
        InMsgV::DisplayName(n) => ClientStateV { display_name: Some(n), ..s },
        InMsgV::AudioStream(ra, rr, sa, sr) => ClientStateV {
            recv_audio_port: Some(ra),
            recv_repair_port: Some(rr),
            send_audio_port: Some(sa),
            send_repair_port: Some(sr),
            ..s
        },
        InMsgV::MuteAudio(sm, rm) => ClientStateV {
            send_mute: Some(sm),
            recv_mute: Some(rm),
            ..s
        },
        InMsgV::TransmitAudio(sa, ra) => ClientStateV {
            send_audio: Some(sa),
            recv_audio: Some(ra),
            ..s
        },
    }
}

/// The changes that the ordered field writes of one inbound message emit:
/// the single-field path's preserved polarity, one event per written
/// field whose value equals the value already stored, in the protocol's
/// fixed write order. A first report of a fresh value is therefore
/// silent; a repeated identical report emits.
pub open spec fn message_events(s: ClientStateV, m: InMsgV) -> Seq<ChangeV> {
    match m {
        InMsgV::Hello(n) => cond_ch(s.client_name == Some(n), ChangeV::ClientName(n)),
        InMsgV::Ping => Seq::empty(),
        InMsgV::BatteryLevel(l, c) => cond_ch(
            s.battery_level == Some(l),
            ChangeV::BatteryLevel(l),
        ) + cond_ch(s.is_charging == Some(c), ChangeV::IsCharging(c)),
        InMsgV::LogMsg(_) => Seq::empty(),
        InMsgV::DisplayName(n) => cond_ch(s.display_name == Some(n), ChangeV::DisplayName(n)),
        InMsgV::AudioStream(ra, rr, sa, sr) => cond_ch(
            s.recv_audio_port == Some(ra),
            ChangeV::RecvAudioPort(ra),
        ) + cond_ch(s.recv_repair_port == Some(rr), ChangeV::RecvRepairPort(rr)) + cond_ch(
            s.send_audio_port == Some(sa),
            ChangeV::SendAudioPort(sa),
        ) + cond_ch(s.send_repair_port == Some(sr), ChangeV::SendRepairPort(sr)),
        InMsgV::MuteAudio(sm, rm) => cond_ch(s.send_mute == Some(sm), ChangeV::SendMute(sm))
            + cond_ch(s.recv_mute == Some(rm), ChangeV::RecvMute(rm)),
        InMsgV::TransmitAudio(sa, ra) => cond_ch(s.send_audio == Some(sa), ChangeV::SendAudio(sa))
            + cond_ch(s.recv_audio == Some(ra), ChangeV::RecvAudio(ra)),
    }
}

/// Whether the message mutates state at all; `Ping` and `LogMsg` are
/// diagnostic only and succeed even for an unknown session.
pub open spec fn message_mutates(m: InMsgV) -> bool {
    !(m is Ping) && !(m is LogMsg)
}

/// Turns one decoded inbound message into its ordered field writes on the
/// registry. A diagnostic message writes nothing. If the session is gone
/// the first write fails and the message is rejected, untouched.
#[verifier::rlimit(100)]
pub fn handle_client_message_received(
    session_id: u64,
    client_manager: &mut ClientManager,
    message: MessageToServer,
) -> (r: Result<(), RegistryError>)
    requires
        old(client_manager).wf(),
    ensures
        final(client_manager).wf(),
        final(client_manager).sub_count() == old(client_manager).sub_count(),
        r is Ok <==> old(client_manager).connected(session_id) || !message_mutates(message@),
        r is Err ==> r == Err::<(), RegistryError>(RegistryError::SessionNotFound) && final(client_manager).clients_v() == old(client_manager).clients_v() && final(client_manager).subs_v() == old(client_manager).subs_v(),
        !message_mutates(message@) ==> final(client_manager).clients_v() == old(client_manager).clients_v() && final(client_manager).subs_v() == old(client_manager).subs_v(),
        r is Ok && message_mutates(message@) ==> final(client_manager).state_of(session_id)
            == message_applied(old(client_manager).state_of(session_id), message@),
        r is Ok && message_mutates(message@) ==> final(client_manager).subs_v() == push_all(
            old(client_manager).subs_v(),
            tag_events(
                session_id,
                message_events(old(client_manager).state_of(session_id), message@),
            ),
        ),
        forall|id2: u64| final(client_manager).connected(id2) == old(client_manager).connected(
            id2,
        ),
        forall|id2: u64|
            id2 != session_id && old(client_manager).connected(id2) ==> final(client_manager).state_of(id2) == old(client_manager).state_of(id2),
{
    let ghost qs0 = old(client_manager).subs_v();
    let ghost s0 = old(client_manager).state_of(session_id);
    match message {
        MessageToServer::Hello(hello) => {
            let r = client_manager.set_client_property(
                session_id,
                ClientStateChange::ClientName(hello.client_name),
            );
            proof {
                if r is Ok {
                    lemma_one_event(qs0, session_id, s0, ChangeV::ClientName(hello.client_name@));
                }
            }
            r
        }
        MessageToServer::Ping => Ok(()),
        MessageToServer::BatteryLevel(battery_level) => {
            let r = client_manager.set_client_property(
                session_id,
                ClientStateChange::BatteryLevel(battery_level.level),
            );
            if let Err(e) = r {
                return Err(e);
            }
            let ghost s1 = client_manager.state_of(session_id);
            let ghost qs1 = client_manager.subs_v();
            let r2 = client_manager.set_client_property(
                session_id,
                ClientStateChange::IsCharging(battery_level.is_charging),
            );
            proof {
                lemma_two_events(
                    qs0,
                    session_id,
                    s0,
                    ChangeV::BatteryLevel(battery_level.level),
                    ChangeV::IsCharging(battery_level.is_charging),
                );
            }
            r2
        }
        MessageToServer::LogMsg(_log_msg) => Ok(()),
        MessageToServer::DisplayName(display_name) => {
            let r = client_manager.set_client_property(
                session_id,
                ClientStateChange::DisplayName(display_name.display_name),
            );
            proof {
                if r is Ok {
                    lemma_one_event(
                        qs0,
                        session_id,
                        s0,
                        ChangeV::DisplayName(message@->DisplayName_0),
                    );
                }
            }
            r
        }
        MessageToServer::AudioStream(audio_stream) => {
            let r = client_manager.set_client_property(
                session_id,
                ClientStateChange::RecvAudioPort(audio_stream.recv_audio_port),
            );
            if let Err(e) = r {
                return Err(e);
            }
            let r = client_manager.set_client_property(
                session_id,
                ClientStateChange::RecvRepairPort(audio_stream.recv_repair_port),
            );
            let r = client_manager.set_client_property(
                session_id,
                ClientStateChange::SendAudioPort(audio_stream.send_audio_port),
            );
            let r = client_manager.set_client_property(
                session_id,
                ClientStateChange::SendRepairPort(audio_stream.send_repair_port),
            );
            proof {
                lemma_four_events(
                    qs0,
                    session_id,
                    s0,
                    ChangeV::RecvAudioPort(audio_stream.recv_audio_port),
                    ChangeV::RecvRepairPort(audio_stream.recv_repair_port),
                    ChangeV::SendAudioPort(audio_stream.send_audio_port),
                    ChangeV::SendRepairPort(audio_stream.send_repair_port),
                );
            }
            r
        }
        MessageToServer::MuteAudio(mute_audio) => {
            let r = client_manager.set_client_property(
                session_id,
                ClientStateChange::SendMute(mute_audio.send_mute),
            );
            if let Err(e) = r {
                return Err(e);
            }
            let r = client_manager.set_client_property(
                session_id,
                ClientStateChange::RecvMute(mute_audio.recv_mute),
            );
            proof {
                lemma_two_events(
                    qs0,
                    session_id,
                    s0,
                    ChangeV::SendMute(mute_audio.send_mute),
                    ChangeV::RecvMute(mute_audio.recv_mute),
                );
            }
            r
        }
        MessageToServer::TransmitAudio(transmit_audio) => {
            let r = client_manager.set_client_property(
                session_id,
                ClientStateChange::SendAudio(transmit_audio.send_audio),
            );
            if let Err(e) = r {
                return Err(e);
            }
            let r = client_manager.set_client_property(
                session_id,
                ClientStateChange::RecvAudio(transmit_audio.recv_audio),
            );
            proof {
                lemma_two_events(
                    qs0,
                    session_id,
                    s0,
                    ChangeV::SendAudio(transmit_audio.send_audio),
                    ChangeV::RecvAudio(transmit_audio.recv_audio),
                );
            }
            r
        }
    }
}

/// One conditional emission equals its tagged event sequence.
proof fn lemma_one_event(qs: Seq<Seq<(u64, ChangeV)>>, id: u64, s: ClientStateV, c: ChangeV)
    ensures
        (if crate::state::change_equals(s, c) {
            push_all(qs, seq![(id, c)])
        } else {
            qs
        }) == push_all(qs, tag_events(id, cond_ch(crate::state::change_equals(s, c), c))),
{
    if crate::state::change_equals(s, c) {
        assert(tag_events(id, cond_ch(true, c)) =~= seq![(id, c)]);
    } else {
        assert(tag_events(id, cond_ch(false, c)) =~= Seq::<(u64, ChangeV)>::empty());
        crate::registry::lemma_push_all_empty(qs);
    }
}

/// Two successive conditional emissions equal their tagged concatenation.
proof fn lemma_two_events(
    qs: Seq<Seq<(u64, ChangeV)>>,
    id: u64,
    s: ClientStateV,
    c1: ChangeV,
    c2: ChangeV,
)
    ensures
        ({
            let d1 = crate::state::change_equals(s, c1);
            let s1 = crate::state::apply_change(s, c1);
            let d2 = crate::state::change_equals(s1, c2);
            let q1 = if d1 {
                push_all(qs, seq![(id, c1)])
            } else {
                qs
            };
            let q2 = if d2 {
                push_all(q1, seq![(id, c2)])
            } else {
                q1
            };
            q2 == push_all(
                qs,
                tag_events(id, cond_ch(d1, c1) + cond_ch(d2, c2)),
            )
        }),
{
    let d1 = crate::state::change_equals(s, c1);
    let s1 = crate::state::apply_change(s, c1);
    let d2 = crate::state::change_equals(s1, c2);
    let e1 = tag_events(id, cond_ch(d1, c1));
    let e2 = tag_events(id, cond_ch(d2, c2));
    lemma_one_event(qs, id, s, c1);
    let q1 = push_all(qs, e1);
    lemma_one_event(q1, id, s1, c2);
    crate::registry::lemma_push_all_concat(qs, e1, e2);
    assert(tag_events(id, cond_ch(d1, c1) + cond_ch(d2, c2)) =~= e1 + e2);
}

/// Four successive conditional emissions equal their tagged concatenation.
proof fn lemma_four_events(
    qs: Seq<Seq<(u64, ChangeV)>>,
    id: u64,
    s: ClientStateV,
    c1: ChangeV,
    c2: ChangeV,
    c3: ChangeV,
    c4: ChangeV,
)
    ensures
        ({
            let d1 = crate::state::change_equals(s, c1);
            let s1 = crate::state::apply_change(s, c1);
            let d2 = crate::state::change_equals(s1, c2);
            let s2 = crate::state::apply_change(s1, c2);
            let d3 = crate::state::change_equals(s2, c3);
            let s3 = crate::state::apply_change(s2, c3);
            let d4 = crate::state::change_equals(s3, c4);
            let q1 = if d1 {
                push_all(qs, seq![(id, c1)])
            } else {
                qs
            };
            let q2 = if d2 {
                push_all(q1, seq![(id, c2)])
            } else {
                q1
            };
            let q3 = if d3 {
                push_all(q2, seq![(id, c3)])
            } else {
                q2
            };
            let q4 = if d4 {
                push_all(q3, seq![(id, c4)])
            } else {
                q3
            };
            q4 == push_all(
                qs,
                tag_events(
                    id,
                    cond_ch(d1, c1) + cond_ch(d2, c2) + cond_ch(d3, c3) + cond_ch(d4, c4),
                ),
            )
        }),
{
    let d1 = crate::state::change_equals(s, c1);
    let s1 = crate::state::apply_change(s, c1);
    let d2 = crate::state::change_equals(s1, c2);
    let s2 = crate::state::apply_change(s1, c2);
    let d3 = crate::state::change_equals(s2, c3);
    let s3 = crate::state::apply_change(s2, c3);
    let d4 = crate::state::change_equals(s3, c4);
    let e1 = tag_events(id, cond_ch(d1, c1));
    let e2 = tag_events(id, cond_ch(d2, c2));
    let e3 = tag_events(id, cond_ch(d3, c3));
    let e4 = tag_events(id, cond_ch(d4, c4));
    lemma_one_event(qs, id, s, c1);
    let q1 = push_all(qs, e1);
    lemma_one_event(q1, id, s1, c2);
    let q2 = push_all(q1, e2);
    lemma_one_event(q2, id, s2, c3);
    let q3 = push_all(q2, e3);
    lemma_one_event(q3, id, s3, c4);
    crate::registry::lemma_push_all_concat(qs, e1, e2);
    crate::registry::lemma_push_all_concat(qs, e1 + e2, e3);
    crate::registry::lemma_push_all_concat(qs, e1 + e2 + e3, e4);
    assert(tag_events(id, cond_ch(d1, c1) + cond_ch(d2, c2) + cond_ch(d3, c3) + cond_ch(d4, c4))
        =~= e1 + e2 + e3 + e4);
}

/// What the broadcaster does with one change event: close the peer's
/// outbound stream on removal, send a rendered message, or stay silent. A
/// composite message is suppressed until all of its fields are known.
#[derive(Debug)]
pub enum BroadcastAction {
    SendMessage(MessagesFromServer),
    CloseStream,
    Nothing,
}

/// The mathematical value of a broadcast decision.
pub enum BroadcastActionV {
    SendMessage(OutMsgV),
    CloseStream,
    Nothing,
}

impl View for BroadcastAction {
    type V = BroadcastActionV;

    open spec fn view(&self) -> BroadcastActionV {
        match self {
            BroadcastAction::SendMessage(m) => BroadcastActionV::SendMessage(m@),
            BroadcastAction::CloseStream => BroadcastActionV::CloseStream,
            BroadcastAction::Nothing => BroadcastActionV::Nothing,
        }
    }
}

/// The outbound decision for one change event, as a function of the
/// session's freshest state. A removal closes the stream whatever the
/// state; with the session gone nothing is sent; the composite messages
/// (ports, mutes, transmit flags) are sent only when every constituent
/// field is known, from the freshest read, regardless of the order in
/// which the fields were set.
pub open spec fn broadcast_decision_spec(c: ChangeV, state: Option<ClientStateV>) -> BroadcastActionV {
    match c {
        ChangeV::Remove(_) => BroadcastActionV::CloseStream,
        _ => {
            if state is None {
                BroadcastActionV::Nothing
            } else {
                let st = state->Some_0;
                match c {
                    ChangeV::Remove(_) => BroadcastActionV::Nothing,
                    ChangeV::Add => BroadcastActionV::Nothing,
                    ChangeV::ClientName(_) => BroadcastActionV::Nothing,
                    ChangeV::BatteryLevel(_) => BroadcastActionV::Nothing,
                    ChangeV::IsCharging(_) => BroadcastActionV::Nothing,
                    ChangeV::DisplayName(n) => BroadcastActionV::SendMessage(
                        OutMsgV::DisplayName(n),
                    ),
                    ChangeV::RecvAudioPort(_) | ChangeV::RecvRepairPort(_)
                        | ChangeV::SendAudioPort(_) | ChangeV::SendRepairPort(_) => {
                        if st.recv_audio_port is Some && st.recv_repair_port is Some
                            && st.send_audio_port is Some && st.send_repair_port is Some {
                            BroadcastActionV::SendMessage(
                                OutMsgV::AudioStream(
                                    st.recv_audio_port->Some_0,
                                    st.recv_repair_port->Some_0,
                                    st.send_audio_port->Some_0,
                                    st.send_repair_port->Some_0,
                                ),
                            )
                        } else {
                            BroadcastActionV::Nothing
                        }
                    }
                    ChangeV::SendMute(_) | ChangeV::RecvMute(_) => {
                        if st.send_mute is Some && st.recv_mute is Some {
                            BroadcastActionV::SendMessage(
                                OutMsgV::MuteAudio(st.send_mute->Some_0, st.recv_mute->Some_0),
                            )
                        } else {
                            BroadcastActionV::Nothing
                        }
                    }
                    ChangeV::SendAudio(_) | ChangeV::RecvAudio(_) => {
                        if st.send_audio is Some && st.recv_audio is Some {
                            BroadcastActionV::SendMessage(
                                OutMsgV::TransmitAudio(
                                    st.send_audio->Some_0,
                                    st.recv_audio->Some_0,
                                ),
                            )
                        } else {
                            BroadcastActionV::Nothing
                        }
                    }
                    ChangeV::BatteryLogIntervalSecs(i) => BroadcastActionV::SendMessage(
                        OutMsgV::BatLogInterval(i),
                    ),
                }
            }
        }
    }
}

/// Decides what the broadcaster does with one change event, given the
/// freshest state of that session (or `None` when it is already gone).
pub fn broadcast_decision(change: &ClientStateChange, state: Option<&ClientState>) -> (r:
    BroadcastAction)
    ensures
        r@ == broadcast_decision_spec(change@, match state {
            Some(st) => Some(st@),
            None => None,
        }),
{
    if let ClientStateChange::Remove(_) = change {
        return BroadcastAction::CloseStream;
    }
    let st = match state {
        Some(st) => st,
        None => {
            return BroadcastAction::Nothing;
        }
    };
    match change {
        ClientStateChange::Remove(_) => BroadcastAction::Nothing,
        ClientStateChange::Add => BroadcastAction::Nothing,
        ClientStateChange::ClientName(_) => BroadcastAction::Nothing,
        ClientStateChange::BatteryLevel(_) => BroadcastAction::Nothing,
        ClientStateChange::IsCharging(_) => BroadcastAction::Nothing,
        ClientStateChange::DisplayName(n) => BroadcastAction::SendMessage(
            MessagesFromServer::DisplayName(DisplayName { display_name: n.clone() }),
        ),
        ClientStateChange::RecvAudioPort(_) | ClientStateChange::RecvRepairPort(_)
            | ClientStateChange::SendAudioPort(_) | ClientStateChange::SendRepairPort(_) => {
            match (&st.recv_audio_port, &st.recv_repair_port, &st.send_audio_port, &st.send_repair_port) {
                (Some(ra), Some(rr), Some(sa), Some(sr)) => BroadcastAction::SendMessage(
                    MessagesFromServer::AudioStream(
                        AudioStream {
                            recv_audio_port: *ra,
                            recv_repair_port: *rr,
                            send_audio_port: *sa,
                            send_repair_port: *sr,
                        },
                    ),
                ),
                _ => BroadcastAction::Nothing,
            }
        }
        ClientStateChange::SendMute(_) | ClientStateChange::RecvMute(_) => {
            match (&st.send_mute, &st.recv_mute) {
                (Some(sm), Some(rm)) => BroadcastAction::SendMessage(
                    MessagesFromServer::MuteAudio(MuteAudio { send_mute: *sm, recv_mute: *rm }),
                ),
                _ => BroadcastAction::Nothing,
            }
        }
        ClientStateChange::SendAudio(_) | ClientStateChange::RecvAudio(_) => {
            match (&st.send_audio, &st.recv_audio) {
                (Some(sa), Some(ra)) => BroadcastAction::SendMessage(
                    MessagesFromServer::TransmitAudio(
                        TransmitAudio { send_audio: *sa, recv_audio: *ra },
                    ),
                ),
                _ => BroadcastAction::Nothing,
            }
        }
        ClientStateChange::BatteryLogIntervalSecs(i) => BroadcastAction::SendMessage(
            MessagesFromServer::BatLogInterval(BatLogInterval { battery_log_interval_secs: *i }),
        ),
    }
}

/// A composite outbound `AudioStream` message is emitted exactly when all
/// four port fields are simultaneously known in the freshest state — never
/// earlier, and regardless of the order in which they were set.
pub proof fn lemma_audio_stream_needs_all_ports(st: ClientStateV, c: ChangeV)
    requires
        c is RecvAudioPort || c is RecvRepairPort || c is SendAudioPort || c is SendRepairPort,
    ensures
        broadcast_decision_spec(c, Some(st)) == (if st.recv_audio_port is Some
            && st.recv_repair_port is Some && st.send_audio_port is Some
            && st.send_repair_port is Some {
            BroadcastActionV::SendMessage(
                OutMsgV::AudioStream(
                    st.recv_audio_port->Some_0,
                    st.recv_repair_port->Some_0,
                    st.send_audio_port->Some_0,
                    st.send_repair_port->Some_0,
                ),
            )
        } else {
            BroadcastActionV::Nothing
        }),
{
}

} // verus!
