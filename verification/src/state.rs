//! The per-session client state record and the change events the registry
//! emits when a field of it is written.
//!
//! Every field is optional: a client reports each attribute at its own pace,
//! and "not reported yet" is a value of its own, distinct from any reported
//! one. The battery level is carried in thousandths (0 means empty, 1000
//! means full), so that the whole record is made of plain values.
use vstd::prelude::*;

verus! {

/// The sparse attribute record of one connected client.
#[derive(Debug)]
pub struct ClientState {
    pub client_name: Option<String>,
    pub battery_level: Option<u32>,
    pub is_charging: Option<bool>,
    pub display_name: Option<String>,
    pub recv_audio_port: Option<u16>,
    pub recv_repair_port: Option<u16>,
    pub send_audio_port: Option<u16>,
    pub send_repair_port: Option<u16>,
    pub send_mute: Option<bool>,
    pub recv_mute: Option<bool>,
    pub send_audio: Option<bool>,
    pub recv_audio: Option<bool>,
    pub battery_log_interval_secs: Option<u32>,
}

/// The mathematical value of a `ClientState`: the same record with each
/// string replaced by its character sequence.
pub struct ClientStateV {
    pub client_name: Option<Seq<char>>,
    pub battery_level: Option<u32>,
    pub is_charging: Option<bool>,
    pub display_name: Option<Seq<char>>,
    pub recv_audio_port: Option<u16>,
    pub recv_repair_port: Option<u16>,
    pub send_audio_port: Option<u16>,
    pub send_repair_port: Option<u16>,
    pub send_mute: Option<bool>,
    pub recv_mute: Option<bool>,
    pub send_audio: Option<bool>,
    pub recv_audio: Option<bool>,
    pub battery_log_interval_secs: Option<u32>,
}

pub open spec fn view_opt_string(o: Option<String>) -> Option<Seq<char>> {
    match o {
        Some(s) => Some(s@),
        None => None,
    }
}

impl View for ClientState {
    type V = ClientStateV;

    open spec fn view(&self) -> ClientStateV {
        ClientStateV {
            client_name: view_opt_string(self.client_name),
            battery_level: self.battery_level,
            is_charging: self.is_charging,
            display_name: view_opt_string(self.display_name),
            recv_audio_port: self.recv_audio_port,
            recv_repair_port: self.recv_repair_port,
            send_audio_port: self.send_audio_port,
            send_repair_port: self.send_repair_port,
            send_mute: self.send_mute,
            recv_mute: self.recv_mute,
            send_audio: self.send_audio,
            recv_audio: self.recv_audio,
            battery_log_interval_secs: self.battery_log_interval_secs,
        }
    }
}

/// The record with every field unset: the state of a session that has just
/// connected and reported nothing yet.
pub open spec fn empty_state() -> ClientStateV {
    ClientStateV {
        client_name: None,
        battery_level: None,
        is_charging: None,
        display_name: None,
        recv_audio_port: None,
        recv_repair_port: None,
        send_audio_port: None,
        send_repair_port: None,
        send_mute: None,
        recv_mute: None,
        send_audio: None,
        recv_audio: None,
        battery_log_interval_secs: None,
    }
}

impl ClientState {
    /// An all-unset record.
    pub fn empty() -> (r: ClientState)
        ensures
            r@ == empty_state(),
    {
        ClientState {
            client_name: None,
            battery_level: None,
            is_charging: None,
            display_name: None,
            recv_audio_port: None,
            recv_repair_port: None,
            send_audio_port: None,
            send_repair_port: None,
            send_mute: None,
            recv_mute: None,
            send_audio: None,
            recv_audio: None,
            battery_log_interval_secs: None,
        }
    }

    /// A field-for-field copy of the record.
    pub fn snapshot(&self) -> (r: ClientState)
        ensures
            r@ == self@,
    {
        ClientState {
            client_name: clone_opt_string(&self.client_name),
            battery_level: self.battery_level,
            is_charging: self.is_charging,
            display_name: clone_opt_string(&self.display_name),
            recv_audio_port: self.recv_audio_port,
            recv_repair_port: self.recv_repair_port,
            send_audio_port: self.send_audio_port,
            send_repair_port: self.send_repair_port,
            send_mute: self.send_mute,
            recv_mute: self.recv_mute,
            send_audio: self.send_audio,
            recv_audio: self.recv_audio,
            battery_log_interval_secs: self.battery_log_interval_secs,
        }
    }
}

impl Default for ClientState {
    fn default() -> (r: ClientState)
        ensures
            r@ == empty_state(),
    {
        ClientState::empty()
    }
}

pub fn clone_opt_string(o: &Option<String>) -> (r: Option<String>)
    ensures
        view_opt_string(r) == view_opt_string(*o),
{
    match o {
        Some(s) => Some(s.clone()),
        None => None,
    }
}

/// One write against a single field of a session's state, or the creation
/// or destruction of the session itself.
#[derive(Debug)]
pub enum ClientStateChange {
    Add,
    Remove(ClientState),
    ClientName(String),
    BatteryLevel(u32),
    IsCharging(bool),
    DisplayName(String),
    RecvAudioPort(u16),
    RecvRepairPort(u16),
    SendAudioPort(u16),
    SendRepairPort(u16),
    SendMute(bool),
    RecvMute(bool),
    SendAudio(bool),
    RecvAudio(bool),
    BatteryLogIntervalSecs(Option<u32>),
}

/// The mathematical value of a `ClientStateChange`.
pub enum ChangeV {
    Add,
    Remove(ClientStateV),
    ClientName(Seq<char>),
    BatteryLevel(u32),
    IsCharging(bool),
    DisplayName(Seq<char>),
    RecvAudioPort(u16),
    RecvRepairPort(u16),
    SendAudioPort(u16),
    SendRepairPort(u16),
    SendMute(bool),
    RecvMute(bool),
    SendAudio(bool),
    RecvAudio(bool),
    BatteryLogIntervalSecs(Option<u32>),
}

impl View for ClientStateChange {
    type V = ChangeV;

    open spec fn view(&self) -> ChangeV {
        match self {
            ClientStateChange::Add => ChangeV::Add,
            ClientStateChange::Remove(s) => ChangeV::Remove(s@),
            ClientStateChange::ClientName(n) => ChangeV::ClientName(n@),
            ClientStateChange::BatteryLevel(l) => ChangeV::BatteryLevel(*l),
            ClientStateChange::IsCharging(c) => ChangeV::IsCharging(*c),
            ClientStateChange::DisplayName(n) => ChangeV::DisplayName(n@),
            ClientStateChange::RecvAudioPort(p) => ChangeV::RecvAudioPort(*p),
            ClientStateChange::RecvRepairPort(p) => ChangeV::RecvRepairPort(*p),
            ClientStateChange::SendAudioPort(p) => ChangeV::SendAudioPort(*p),
            ClientStateChange::SendRepairPort(p) => ChangeV::SendRepairPort(*p),
            ClientStateChange::SendMute(m) => ChangeV::SendMute(*m),
            ClientStateChange::RecvMute(m) => ChangeV::RecvMute(*m),
            ClientStateChange::SendAudio(a) => ChangeV::SendAudio(*a),
            ClientStateChange::RecvAudio(a) => ChangeV::RecvAudio(*a),
            ClientStateChange::BatteryLogIntervalSecs(i) => ChangeV::BatteryLogIntervalSecs(*i),
        }
    }
}

impl ClientStateChange {
    /// A field-for-field copy of the change.
    pub fn duplicate(&self) -> (r: ClientStateChange)
        ensures
            r@ == self@,
    {
        match self {
            ClientStateChange::Add => ClientStateChange::Add,
            ClientStateChange::Remove(s) => ClientStateChange::Remove(s.snapshot()),
            ClientStateChange::ClientName(n) => ClientStateChange::ClientName(n.clone()),
            ClientStateChange::BatteryLevel(l) => ClientStateChange::BatteryLevel(*l),
            ClientStateChange::IsCharging(c) => ClientStateChange::IsCharging(*c),
            ClientStateChange::DisplayName(n) => ClientStateChange::DisplayName(n.clone()),
            ClientStateChange::RecvAudioPort(p) => ClientStateChange::RecvAudioPort(*p),
            ClientStateChange::RecvRepairPort(p) => ClientStateChange::RecvRepairPort(*p),
            ClientStateChange::SendAudioPort(p) => ClientStateChange::SendAudioPort(*p),
            ClientStateChange::SendRepairPort(p) => ClientStateChange::SendRepairPort(*p),
            ClientStateChange::SendMute(m) => ClientStateChange::SendMute(*m),
            ClientStateChange::RecvMute(m) => ClientStateChange::RecvMute(*m),
            ClientStateChange::SendAudio(a) => ClientStateChange::SendAudio(*a),
            ClientStateChange::RecvAudio(a) => ClientStateChange::RecvAudio(*a),
            ClientStateChange::BatteryLogIntervalSecs(i) => {
                ClientStateChange::BatteryLogIntervalSecs(*i)
            }
        }
    }
}

/// The state after one single-field write. `Add` and `Remove` write nothing:
/// the registry rejects them before they reach a state record.
pub open spec fn apply_change(s: ClientStateV, c: ChangeV) -> ClientStateV {
    match c {
        ChangeV::Add => s,
        ChangeV::Remove(_) => s,
        ChangeV::ClientName(n) => ClientStateV { client_name: Some(n), ..s },
        ChangeV::BatteryLevel(l) => ClientStateV { battery_level: Some(l), ..s },
        ChangeV::IsCharging(c) => ClientStateV { is_charging: Some(c), ..s },
        ChangeV::DisplayName(n) => ClientStateV { display_name: Some(n), ..s },
        ChangeV::RecvAudioPort(p) => ClientStateV { recv_audio_port: Some(p), ..s },
        ChangeV::RecvRepairPort(p) => ClientStateV { recv_repair_port: Some(p), ..s },
        ChangeV::SendAudioPort(p) => ClientStateV { send_audio_port: Some(p), ..s },
        ChangeV::SendRepairPort(p) => ClientStateV { send_repair_port: Some(p), ..s },
        ChangeV::SendMute(m) => ClientStateV { send_mute: Some(m), ..s },
        ChangeV::RecvMute(m) => ClientStateV { recv_mute: Some(m), ..s },
        ChangeV::SendAudio(a) => ClientStateV { send_audio: Some(a), ..s },
        ChangeV::RecvAudio(a) => ClientStateV { recv_audio: Some(a), ..s },
        ChangeV::BatteryLogIntervalSecs(i) => {
            ClientStateV { battery_log_interval_secs: i, ..s }
        }
    }
}

/// The state after a bulk merge: every field that the partial record `p`
/// carries overwrites the stored field; fields `p` leaves unset keep their
/// stored value.
pub open spec fn merged_state(s: ClientStateV, p: ClientStateV) -> ClientStateV {
    ClientStateV {
        client_name: if p.client_name is Some {
            p.client_name
        } else {
            s.client_name
        },
        battery_level: if p.battery_level is Some {
            p.battery_level
        } else {
            s.battery_level
        },
        is_charging: if p.is_charging is Some {
            p.is_charging
        } else {
            s.is_charging
        },
        display_name: if p.display_name is Some {
            p.display_name
        } else {
            s.display_name
        },
        recv_audio_port: if p.recv_audio_port is Some {
            p.recv_audio_port
        } else {
            s.recv_audio_port
        },
        recv_repair_port: if p.recv_repair_port is Some {
            p.recv_repair_port
        } else {
            s.recv_repair_port
        },
        send_audio_port: if p.send_audio_port is Some {
            p.send_audio_port
        } else {
            s.send_audio_port
        },
        send_repair_port: if p.send_repair_port is Some {
            p.send_repair_port
        } else {
            s.send_repair_port
        },
        send_mute: if p.send_mute is Some {
            p.send_mute
        } else {
            s.send_mute
        },
        recv_mute: if p.recv_mute is Some {
            p.recv_mute
        } else {
            s.recv_mute
        },
        send_audio: if p.send_audio is Some {
            p.send_audio
        } else {
            s.send_audio
        },
        recv_audio: if p.recv_audio is Some {
            p.recv_audio
        } else {
            s.recv_audio
        },
        battery_log_interval_secs: if p.battery_log_interval_secs is Some {
            p.battery_log_interval_secs
        } else {
            s.battery_log_interval_secs
        },
    }
}

/// True when the stored optional string holds exactly the value `v`.
pub fn opt_string_is(o: &Option<String>, v: &String) -> (r: bool)
    ensures
        r == (view_opt_string(*o) == Some(v@)),
{
    match o {
        Some(x) => *x == *v,
        None => false,
    }
}

pub fn opt_u16_is(o: &Option<u16>, v: u16) -> (r: bool)
    ensures
        r == (*o == Some(v)),
{
    match o {
        Some(x) => *x == v,
        None => false,
    }
}

pub fn opt_u32_is(o: &Option<u32>, v: u32) -> (r: bool)
    ensures
        r == (*o == Some(v)),
{
    match o {
        Some(x) => *x == v,
        None => false,
    }
}

pub fn opt_bool_is(o: &Option<bool>, v: bool) -> (r: bool)
    ensures
        r == (*o == Some(v)),
{
    match o {
        Some(x) => *x == v,
        None => false,
    }
}

pub fn opt_u32_eq(a: &Option<u32>, b: &Option<u32>) -> (r: bool)
    ensures
        r == (*a == *b),
{
    match (a, b) {
        (Some(x), Some(y)) => *x == *y,
        (None, None) => true,
        (Some(_), None) => false,
        (None, Some(_)) => false,
    }
}

/// Whether the write carries a value other than the one the field holds:
/// exactly then does the registry emit the change to its subscribers.
pub open spec fn change_differs(s: ClientStateV, c: ChangeV) -> bool {
    match c {
        ChangeV::Add => false,
        ChangeV::Remove(_) => false,
        ChangeV::ClientName(n) => s.client_name != Some(n),
        ChangeV::BatteryLevel(l) => s.battery_level != Some(l),
        ChangeV::IsCharging(c) => s.is_charging != Some(c),
        ChangeV::DisplayName(n) => s.display_name != Some(n),
        ChangeV::RecvAudioPort(p) => s.recv_audio_port != Some(p),
        ChangeV::RecvRepairPort(p) => s.recv_repair_port != Some(p),
        ChangeV::SendAudioPort(p) => s.send_audio_port != Some(p),
        ChangeV::SendRepairPort(p) => s.send_repair_port != Some(p),
        ChangeV::SendMute(m) => s.send_mute != Some(m),
        ChangeV::RecvMute(m) => s.recv_mute != Some(m),
        ChangeV::SendAudio(a) => s.send_audio != Some(a),
        ChangeV::RecvAudio(a) => s.recv_audio != Some(a),
        ChangeV::BatteryLogIntervalSecs(i) => s.battery_log_interval_secs != i,
    }
}

/// Whether the write carries exactly the value the field already holds.
/// The single-field registry path emits its change event precisely then:
/// that is the observed behavior of the reference control plane, kept as
/// it stands even though it is almost certainly an inverted comparison —
/// the bulk-merge path emits on the opposite condition. Downstream
/// consumers may depend on it, so it is preserved and flagged rather than
/// silently reconciled.
pub open spec fn change_equals(s: ClientStateV, c: ChangeV) -> bool {
    match c {
        ChangeV::Add => false,
        ChangeV::Remove(_) => false,
        _ => !change_differs(s, c),
    }
}

/// Decides whether applying `c` to `s` would change the stored value.
pub fn change_differs_exec(s: &ClientState, c: &ClientStateChange) -> (r: bool)
    ensures
        r == change_differs(s@, c@),
{
    match c {
        ClientStateChange::Add => false,
        ClientStateChange::Remove(_) => false,
        ClientStateChange::ClientName(n) => !opt_string_is(&s.client_name, n),
        ClientStateChange::BatteryLevel(l) => !opt_u32_is(&s.battery_level, *l),
        ClientStateChange::IsCharging(c2) => !opt_bool_is(&s.is_charging, *c2),
        ClientStateChange::DisplayName(n) => !opt_string_is(&s.display_name, n),
        ClientStateChange::RecvAudioPort(p) => !opt_u16_is(&s.recv_audio_port, *p),
        ClientStateChange::RecvRepairPort(p) => !opt_u16_is(&s.recv_repair_port, *p),
        ClientStateChange::SendAudioPort(p) => !opt_u16_is(&s.send_audio_port, *p),
        ClientStateChange::SendRepairPort(p) => !opt_u16_is(&s.send_repair_port, *p),
        ClientStateChange::SendMute(m) => !opt_bool_is(&s.send_mute, *m),
        ClientStateChange::RecvMute(m) => !opt_bool_is(&s.recv_mute, *m),
        ClientStateChange::SendAudio(a) => !opt_bool_is(&s.send_audio, *a),
        ClientStateChange::RecvAudio(a) => !opt_bool_is(&s.recv_audio, *a),
        ClientStateChange::BatteryLogIntervalSecs(i) => {
            !opt_u32_eq(&s.battery_log_interval_secs, i)
        }
    }
}

/// Writes the single field that `c` carries; `Add` and `Remove` write
/// nothing.
pub fn apply_change_exec(s: &mut ClientState, c: &ClientStateChange)
    ensures
        final(s)@ == apply_change(old(s)@, c@),
{
    match c {
        ClientStateChange::Add => {}
        ClientStateChange::Remove(_) => {}
        ClientStateChange::ClientName(n) => {
            s.client_name = Some(n.clone());
        }
        ClientStateChange::BatteryLevel(l) => {
            s.battery_level = Some(*l);
        }
        ClientStateChange::IsCharging(c2) => {
            s.is_charging = Some(*c2);
        }
        ClientStateChange::DisplayName(n) => {
            s.display_name = Some(n.clone());
        }
        ClientStateChange::RecvAudioPort(p) => {
            s.recv_audio_port = Some(*p);
        }
        ClientStateChange::RecvRepairPort(p) => {
            s.recv_repair_port = Some(*p);
        }
        ClientStateChange::SendAudioPort(p) => {
            s.send_audio_port = Some(*p);
        }
        ClientStateChange::SendRepairPort(p) => {
            s.send_repair_port = Some(*p);
        }
        ClientStateChange::SendMute(m) => {
            s.send_mute = Some(*m);
        }
        ClientStateChange::RecvMute(m) => {
            s.recv_mute = Some(*m);
        }
        ClientStateChange::SendAudio(a) => {
            s.send_audio = Some(*a);
        }
        ClientStateChange::RecvAudio(a) => {
            s.recv_audio = Some(*a);
        }
        ClientStateChange::BatteryLogIntervalSecs(i) => {
            s.battery_log_interval_secs = *i;
        }
    }
}

} // verus!
