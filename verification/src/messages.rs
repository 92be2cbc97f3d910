//! The wire-protocol message shapes, inbound (client to server) and
//! outbound (server to client).
//!
//! A battery level travels in thousandths of a full charge (0 empty, 1000
//! full), so every payload is a plain value.
use vstd::prelude::*;

verus! {

/// A client introduces itself under its identity name.
#[derive(Clone, PartialEq, Eq, Debug)]
pub struct Hello {
    pub client_name: String,
}

/// A client reports its battery, in thousandths, and whether it charges.
#[derive(Clone, Copy, PartialEq, Eq, Debug)]
pub struct BatteryLevel {
    pub level: u32,
    pub is_charging: bool,
}

/// A client forwards a diagnostic line; it mutates no state.
#[derive(Clone, PartialEq, Eq, Debug)]
pub struct LogMsg {
    pub message: String,
}

/// The human-readable name shown on dashboards; sent in both directions.
#[derive(Clone, PartialEq, Eq, Debug)]
pub struct DisplayName {
    pub display_name: String,
}

/// The four negotiated UDP port numbers; sent in both directions.
#[derive(Clone, Copy, PartialEq, Eq, Debug)]
pub struct AudioStream {
    pub recv_audio_port: u16,
    pub recv_repair_port: u16,
    pub send_audio_port: u16,
    pub send_repair_port: u16,
}

/// The two mute flags; sent in both directions.
#[derive(Clone, Copy, PartialEq, Eq, Debug)]
pub struct MuteAudio {
    pub send_mute: bool,
    pub recv_mute: bool,
}

/// The two transmit-enable flags; sent in both directions.
#[derive(Clone, Copy, PartialEq, Eq, Debug)]
pub struct TransmitAudio {
    pub send_audio: bool,
    pub recv_audio: bool,
}

/// How often the client should report its battery, in seconds; the value
/// may legitimately be absent.
#[derive(Clone, Copy, PartialEq, Eq, Debug)]
pub struct BatLogInterval {
    pub battery_log_interval_secs: Option<u32>,
}

/// An inbound protocol message, selected by the wire discriminator.
#[derive(Clone, PartialEq, Eq, Debug)]
pub enum MessageToServer {
    Hello(Hello),
    Ping,
    BatteryLevel(BatteryLevel),
    LogMsg(LogMsg),
    DisplayName(DisplayName),
    AudioStream(AudioStream),
    MuteAudio(MuteAudio),
    TransmitAudio(TransmitAudio),
}

/// The mathematical value of an inbound message.
pub enum InMsgV {
    Hello(Seq<char>),
    Ping,
    BatteryLevel(u32, bool),
    LogMsg(Seq<char>),
    DisplayName(Seq<char>),
    AudioStream(u16, u16, u16, u16),
    MuteAudio(bool, bool),
    TransmitAudio(bool, bool),
}

impl View for MessageToServer {
    type V = InMsgV;

    open spec fn view(&self) -> InMsgV {
        match self {
            MessageToServer::Hello(h) => InMsgV::Hello(h.client_name@),
            MessageToServer::Ping => InMsgV::Ping,
            MessageToServer::BatteryLevel(b) => InMsgV::BatteryLevel(b.level, b.is_charging),
            MessageToServer::LogMsg(l) => InMsgV::LogMsg(l.message@),
            MessageToServer::DisplayName(d) => InMsgV::DisplayName(d.display_name@),
            MessageToServer::AudioStream(a) => InMsgV::AudioStream(
                a.recv_audio_port,
                a.recv_repair_port,
                a.send_audio_port,
                a.send_repair_port,
            ),
            MessageToServer::MuteAudio(m) => InMsgV::MuteAudio(m.send_mute, m.recv_mute),
            MessageToServer::TransmitAudio(t) => InMsgV::TransmitAudio(t.send_audio, t.recv_audio),
        }
    }
}

/// An outbound protocol message, selected by the same discriminator.
#[derive(Clone, PartialEq, Eq, Debug)]
pub enum MessagesFromServer {
    DisplayName(DisplayName),
    AudioStream(AudioStream),
    MuteAudio(MuteAudio),
    TransmitAudio(TransmitAudio),
    BatLogInterval(BatLogInterval),
}

/// The mathematical value of an outbound message.
pub enum OutMsgV {
    DisplayName(Seq<char>),
    AudioStream(u16, u16, u16, u16),
    MuteAudio(bool, bool),
    TransmitAudio(bool, bool),
    BatLogInterval(Option<u32>),
}

impl View for MessagesFromServer {
    type V = OutMsgV;

    open spec fn view(&self) -> OutMsgV {
        match self {
            MessagesFromServer::DisplayName(d) => OutMsgV::DisplayName(d.display_name@),
            MessagesFromServer::AudioStream(a) => OutMsgV::AudioStream(
                a.recv_audio_port,
                a.recv_repair_port,
                a.send_audio_port,
                a.send_repair_port,
            ),
            MessagesFromServer::MuteAudio(m) => OutMsgV::MuteAudio(m.send_mute, m.recv_mute),
            MessagesFromServer::TransmitAudio(t) => OutMsgV::TransmitAudio(
                t.send_audio,
                t.recv_audio,
            ),
            MessagesFromServer::BatLogInterval(b) => OutMsgV::BatLogInterval(
                b.battery_log_interval_secs,
            ),
        }
    }
}

} // verus!
