//! The configuration-synchronization engine's decisions: which file a
//! registry event asks to load or to write, and how a parsed
//! configuration record flows back into the live registry.
//!
//! The engine itself is best-effort: the surrounding binary performs the
//! reads and writes this module decides on, and drops whatever fails.
use vstd::prelude::*;

use crate::config_doc::config_doc;
use crate::json::text_ok;
use crate::registry::ClientManager;
use crate::registry::cs_connected;
use crate::registry::cs_state;
use crate::registry::find_by_name;
use crate::registry::merge_events;
use crate::registry::push_all;
use crate::state::ChangeV;
use crate::state::ClientState;
use crate::state::ClientStateChange;
use crate::state::ClientStateV;
use crate::state::merged_state;

verus! {

/// What the persistence loop does with one registry event: load the
/// named file and merge it, overwrite the named file with the given
/// text, or nothing.
#[derive(Debug)]
pub enum PersistAction {
    LoadConfig(String),
    WriteConfig(String, String),
    Nothing,
}

/// The mathematical value of a persistence decision.
pub enum PersistActionV {
    LoadConfig(Seq<char>),
    WriteConfig(Seq<char>, Seq<char>),
    Nothing,
}

impl View for PersistAction {
    type V = PersistActionV;

    open spec fn view(&self) -> PersistActionV {
        match self {
            PersistAction::LoadConfig(p) => PersistActionV::LoadConfig(p@),
            PersistAction::WriteConfig(p, c) => PersistActionV::WriteConfig(p@, c@),
            PersistAction::Nothing => PersistActionV::Nothing,
        }
    }
}

/// Whether every string of the record fits the configuration grammar.
pub open spec fn state_text_ok(st: ClientStateV) -> bool {
    &&& (st.client_name matches Some(n) ==> text_ok(n))
    &&& (st.display_name matches Some(n) ==> text_ok(n))
}

/// The persistence decision for one change event of session `id`, over
/// the registry's current sessions `cs`. A session's creation or
/// destruction never touches a file. A client that (re)identifies itself
/// has its file loaded and merged. Every other field change is persisted
/// under the session's current identity name — and not at all while that
/// name is unknown, the one case where nothing can be written.
pub open spec fn persist_spec(cs: Seq<(u64, ClientStateV)>, id: u64, c: ChangeV) -> PersistActionV {
    match c {
        ChangeV::Add => PersistActionV::Nothing,
        ChangeV::Remove(_) => PersistActionV::Nothing,
        ChangeV::ClientName(n) => PersistActionV::LoadConfig(n + ".json"@),
        _ => {
            if !cs_connected(cs, id) {
                PersistActionV::Nothing
            } else {
                let st = cs_state(cs, id);
                match st.client_name {
                    None => PersistActionV::Nothing,
                    Some(n) => PersistActionV::WriteConfig(n + ".json"@, config_doc(st, true)),
                }
            }
        }
    }
}

/// The configuration file of a client: its identity name plus the fixed
/// extension.
pub fn config_file_name(name: &str) -> (r: String)
    ensures
        r@ == name@ + ".json"@,
{
    let mut out = name.to_owned();
    out.append(".json");
    out
}

/// Whether a watched path carries the configuration extension; events
/// for any other file are discarded. A file whose whole name is the
/// extension — `.json`, a leading-dot name — has no extension and is
/// discarded too.
pub fn has_json_ext(path: &str) -> (r: bool)
    ensures
        r == (path@.len() >= 6 && path@.subrange(path@.len() - 5, path@.len() as int)
            == ".json"@ && path@[path@.len() - 6] != '/'),
{
    let n = path.unicode_len();
    if n < 6 {
        return false;
    }
    if path.get_char(n - 6) == '/' {
        return false;
    }
    let tail = path.substring_char(n - 5, n).to_owned();
    let r = tail == String::from_str(".json");
    proof {
        assert(tail@ == path@.subrange(path@.len() - 5, path@.len() as int));
    }
    r
}

/// Decides what the persistence loop does with one registry event.
pub fn persist_decision(
    client_manager: &mut ClientManager,
    session_id: u64,
    change: &ClientStateChange,
) -> (r: PersistAction)
    requires
        old(client_manager).wf(),
    ensures
        final(client_manager).wf(),
        final(client_manager).clients_v() == old(client_manager).clients_v(),
        final(client_manager).subs_v() == old(client_manager).subs_v(),
        r@ == persist_spec(old(client_manager).clients_v(), session_id, change@),
{
    match change {
        ClientStateChange::Add => PersistAction::Nothing,
        ClientStateChange::Remove(_) => PersistAction::Nothing,
        ClientStateChange::ClientName(n) => PersistAction::LoadConfig(
            config_file_name(n.as_str()),
        ),
        _ => {
            let st = match client_manager.get_client(session_id) {
                Ok(st) => st,
                Err(_) => {
                    return PersistAction::Nothing;
                }
            };
            let name = match &st.client_name {
                Some(n) => n.clone(),
                None => {
                    return PersistAction::Nothing;
                }
            };
            let content = crate::config_doc::encode_config(&st, true);
            PersistAction::WriteConfig(config_file_name(name.as_str()), content)
        }
    }
}

/// The outcome of feeding one parsed configuration record back into the
/// registry.
#[derive(Clone, Copy, PartialEq, Eq, Debug)]
pub enum ConfigApplyOutcome {
    /// The record names no client; it joins nothing and is dropped.
    NoName,
    /// No connected session carries the record's name; dropped, to be
    /// applied on a later event.
    NotConnected,
    /// Merged onto the named session.
    Merged(u64),
}

/// Feeds a parsed configuration record into the registry: the file's
/// identity name is the sole join key, resolved to the first connected
/// session of that name, and the record is bulk-merged onto it.
pub fn apply_config_state(client_manager: &mut ClientManager, parsed: ClientState) -> (r:
    ConfigApplyOutcome)
    requires
        old(client_manager).wf(),
    ensures
        final(client_manager).wf(),
        final(client_manager).sub_count() == old(client_manager).sub_count(),
        r == ConfigApplyOutcome::NoName <==> parsed@.client_name is None,
        r == ConfigApplyOutcome::NoName ==> final(client_manager).clients_v() == old(client_manager).clients_v() && final(client_manager).subs_v() == old(client_manager).subs_v(),
        parsed@.client_name matches Some(n) ==> ({
            match find_by_name(old(client_manager).clients_v(), n) {
                None => r == ConfigApplyOutcome::NotConnected && final(client_manager).clients_v()
                    == old(client_manager).clients_v() && final(client_manager).subs_v() == old(client_manager).subs_v(),
                Some(id) => r == ConfigApplyOutcome::Merged(id) && final(client_manager).state_of(id) == merged_state(old(client_manager).state_of(id), parsed@) && final(client_manager).subs_v() == push_all(
                    old(client_manager).subs_v(),
                    merge_events(id, old(client_manager).state_of(id), parsed@),
                ),
            }
        }),
{
    let name = match &parsed.client_name {
        Some(n) => n.clone(),
        None => {
            return ConfigApplyOutcome::NoName;
        }
    };
    let session_id = match client_manager.get_session_id(name.as_str()) {
        Some(id) => id,
        None => {
            return ConfigApplyOutcome::NotConnected;
        }
    };
    proof {
        crate::registry::lemma_find_by_name_connected(
            old(client_manager).clients_v(),
            name@,
        );
    }
    let res = client_manager.update_client(session_id, parsed);
    proof {
        assert(res is Ok);
    }
    ConfigApplyOutcome::Merged(session_id)
}

/// A session's creation or destruction never loads, writes, deletes or
/// otherwise touches a configuration file.
pub proof fn lemma_lifecycle_never_writes(
    cs: Seq<(u64, ClientStateV)>,
    id: u64,
    st: ClientStateV,
)
    ensures
        persist_spec(cs, id, ChangeV::Add) == PersistActionV::Nothing,
        persist_spec(cs, id, ChangeV::Remove(st)) == PersistActionV::Nothing,
{
}

/// A write always carries the session's current identity name: it
/// happens exactly while the session is connected and its name is set,
/// and the file is that name plus the extension, holding the full
/// current snapshot. With the name unknown, nothing is written.
pub proof fn lemma_persist_needs_name(cs: Seq<(u64, ClientStateV)>, id: u64, c: ChangeV)
    requires
        !(c is Add),
        !(c is Remove),
        !(c is ClientName),
    ensures
        persist_spec(cs, id, c) matches PersistActionV::WriteConfig(path, content) ==> ({
            &&& cs_connected(cs, id)
            &&& cs_state(cs, id).client_name is Some
            &&& path == cs_state(cs, id).client_name->Some_0 + ".json"@
            &&& content == config_doc(cs_state(cs, id), true)
        }),
        cs_connected(cs, id) && cs_state(cs, id).client_name is Some ==> persist_spec(
            cs,
            id,
            c,
        ) is WriteConfig,
        cs_connected(cs, id) && cs_state(cs, id).client_name is None ==> persist_spec(cs, id, c)
            == PersistActionV::Nothing,
{
}

/// A client that has just identified or re-identified itself has exactly
/// its own configuration file loaded for merging.
pub proof fn lemma_name_change_loads_config(cs: Seq<(u64, ClientStateV)>, id: u64, n: Seq<char>)
    ensures
        persist_spec(cs, id, ChangeV::ClientName(n)) == PersistActionV::LoadConfig(n + ".json"@),
{
}

} // verus!
