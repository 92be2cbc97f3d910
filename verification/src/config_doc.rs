//! Rendering of a client's configuration record as one JSON object: the
//! full sparse state, only the fields that are set, keys in declaration
//! order. The pretty form (two-space indent, one field per line) is what
//! the configuration directory holds; the compact form, the same text with
//! the whitespace outside strings removed, is what the parser checks
//! against.
use vstd::prelude::*;

use crate::json::bat_chars;
use crate::json::bool_chars;
use crate::json::dec_digits;
use crate::json::qstr;
use crate::state::ClientState;
use crate::state::ClientStateV;

verus! {

/// One rendered field of a configuration object, with the separator that
/// its position asks for: nothing if the field is unset, else the
/// separator for a first or a later member, the key, and the value.
pub open spec fn cfg_seg(
    present: bool,
    has_prev: bool,
    pretty: bool,
    key_pretty: Seq<char>,
    key_compact: Seq<char>,
    val: Seq<char>,
) -> Seq<char> {
    if present {
        (if has_prev {
            if pretty {
                ",\n  "@
            } else {
                ","@
            }
        } else {
            if pretty {
                "\n  "@
            } else {
                ""@
            }
        }) + (if pretty {
            key_pretty
        } else {
            key_compact
        }) + val
    } else {
        Seq::empty()
    }
}

/// Whether field number `k` of the record is set.
pub open spec fn cfg_present(s: ClientStateV, k: int) -> bool {
    if k <= 0 {
        false
    } else if k == 1 {
        s.client_name is Some
    } else if k == 2 {
        s.battery_level is Some
    } else if k == 3 {
        s.is_charging is Some
    } else if k == 4 {
        s.display_name is Some
    } else if k == 5 {
        s.recv_audio_port is Some
    } else if k == 6 {
        s.recv_repair_port is Some
    } else if k == 7 {
        s.send_audio_port is Some
    } else if k == 8 {
        s.send_repair_port is Some
    } else if k == 9 {
        s.send_mute is Some
    } else if k == 10 {
        s.recv_mute is Some
    } else if k == 11 {
        s.send_audio is Some
    } else if k == 12 {
        s.recv_audio is Some
    } else if k == 13 {
        s.battery_log_interval_secs is Some
    } else {
        false
    }
}

/// Whether any of the first `k` fields is set.
pub open spec fn cfg_any_upto(s: ClientStateV, k: int) -> bool
    decreases k,
{
    if k <= 0 {
        false
    } else {
        cfg_any_upto(s, k - 1) || cfg_present(s, k)
    }
}

/// The rendered form of field number `k`, given whether a member already
/// stands before it.
pub open spec fn cfg_field_seg(s: ClientStateV, pretty: bool, k: int, has_prev: bool) -> Seq<
    char,
> {
    if k == 0 {
        Seq::empty()
    } else if k == 1 {
        cfg_seg(
            s.client_name is Some,
            has_prev,
            pretty,
            "\"client_name\": "@,
            "\"client_name\":"@,
            (match s.client_name { Some(v) => qstr(v), None => Seq::empty() }),
        )
    } else if k == 2 {
        cfg_seg(
            s.battery_level is Some,
            has_prev,
            pretty,
            "\"battery_level\": "@,
            "\"battery_level\":"@,
            (match s.battery_level { Some(v) => bat_chars(v as nat), None => Seq::empty() }),
        )
    } else if k == 3 {
        cfg_seg(
            s.is_charging is Some,
            has_prev,
            pretty,
            "\"is_charging\": "@,
            "\"is_charging\":"@,
            (match s.is_charging { Some(v) => bool_chars(v), None => Seq::empty() }),
        )
    } else if k == 4 {
        cfg_seg(
            s.display_name is Some,
            has_prev,
            pretty,
            "\"display_name\": "@,
            "\"display_name\":"@,
            (match s.display_name { Some(v) => qstr(v), None => Seq::empty() }),
        )
    } else if k == 5 {
        cfg_seg(
            s.recv_audio_port is Some,
            has_prev,
            pretty,
            "\"recv_audio_port\": "@,
            "\"recv_audio_port\":"@,
            (match s.recv_audio_port { Some(v) => dec_digits(v as nat), None => Seq::empty() }),
        )
    } else if k == 6 {
        cfg_seg(
            s.recv_repair_port is Some,
            has_prev,
            pretty,
            "\"recv_repair_port\": "@,
            "\"recv_repair_port\":"@,
            (match s.recv_repair_port { Some(v) => dec_digits(v as nat), None => Seq::empty() }),
        )
    } else if k == 7 {
        cfg_seg(
            s.send_audio_port is Some,
            has_prev,
            pretty,
            "\"send_audio_port\": "@,
            "\"send_audio_port\":"@,
            (match s.send_audio_port { Some(v) => dec_digits(v as nat), None => Seq::empty() }),
        )
    } else if k == 8 {
        cfg_seg(
            s.send_repair_port is Some,
            has_prev,
            pretty,
            "\"send_repair_port\": "@,
            "\"send_repair_port\":"@,
            (match s.send_repair_port { Some(v) => dec_digits(v as nat), None => Seq::empty() }),
        )
    } else if k == 9 {
        cfg_seg(
            s.send_mute is Some,
            has_prev,
            pretty,
            "\"send_mute\": "@,
            "\"send_mute\":"@,
            (match s.send_mute { Some(v) => bool_chars(v), None => Seq::empty() }),
        )
    } else if k == 10 {
        cfg_seg(
            s.recv_mute is Some,
            has_prev,
            pretty,
            "\"recv_mute\": "@,
            "\"recv_mute\":"@,
            (match s.recv_mute { Some(v) => bool_chars(v), None => Seq::empty() }),
        )
    } else if k == 11 {
        cfg_seg(
            s.send_audio is Some,
            has_prev,
            pretty,
            "\"send_audio\": "@,
            "\"send_audio\":"@,
            (match s.send_audio { Some(v) => bool_chars(v), None => Seq::empty() }),
        )
    } else if k == 12 {
        cfg_seg(
            s.recv_audio is Some,
            has_prev,
            pretty,
            "\"recv_audio\": "@,
            "\"recv_audio\":"@,
            (match s.recv_audio { Some(v) => bool_chars(v), None => Seq::empty() }),
        )
    } else if k == 13 {
        cfg_seg(
            s.battery_log_interval_secs is Some,
            has_prev,
            pretty,
            "\"battery_log_interval_secs\": "@,
            "\"battery_log_interval_secs\":"@,
            (match s.battery_log_interval_secs { Some(v) => dec_digits(v as nat), None => Seq::empty() }),
        )
    } else {
        Seq::empty()
    }
}

/// The body of the object: the first `k` fields rendered in order.
pub open spec fn cfg_upto(s: ClientStateV, pretty: bool, k: int) -> Seq<char>
    decreases k,
{
    if k <= 0 {
        Seq::empty()
    } else {
        cfg_upto(s, pretty, k - 1) + cfg_field_seg(s, pretty, k, cfg_any_upto(s, k - 1))
    }
}

/// The full configuration document for a state: `{}` when nothing is
/// set, else the object with every set field, pretty-printed or compact.
pub open spec fn config_doc(s: ClientStateV, pretty: bool) -> Seq<char> {
    if !cfg_any_upto(s, 13) {
        "{}"@
    } else {
        "{"@ + cfg_upto(s, pretty, 13) + (if pretty {
            "\n}"@
        } else {
            "}"@
        })
    }
}

/// Appends field number 1 of the record, if it is set.
fn cfg_write_client_name(out: &mut String, first: &mut bool, pretty: bool, s: &ClientState)
    ensures
        final(out)@ == old(out)@ + cfg_field_seg(s@, pretty, 1, !*old(first)),
        *final(first) == (*old(first) && !cfg_present(s@, 1)),
{
    if let Some(v) = &s.client_name {
        if *first {
            if pretty {
                out.append("\n  ");
            }
            *first = false;
        } else {
            if pretty {
                out.append(",\n  ");
            } else {
                out.append(",");
            }
        }
        if pretty {
            out.append("\"client_name\": ");
        } else {
            out.append("\"client_name\":");
        }
        crate::json::append_qstr(out, v.as_str());
        proof {
            reveal_strlit("\n  ");
            reveal_strlit(",\n  ");
            reveal_strlit(",");
            reveal_strlit("");
            assert(out@ =~= old(out)@ + cfg_field_seg(s@, pretty, 1, !*old(first)));
        }
    } else {
        proof {
            assert(out@ =~= old(out)@ + cfg_field_seg(s@, pretty, 1, !*old(first)));
        }
    }
}

/// Appends field number 2 of the record, if it is set.
fn cfg_write_battery_level(out: &mut String, first: &mut bool, pretty: bool, s: &ClientState)
    ensures
        final(out)@ == old(out)@ + cfg_field_seg(s@, pretty, 2, !*old(first)),
        *final(first) == (*old(first) && !cfg_present(s@, 2)),
{
    if let Some(v) = s.battery_level {
        if *first {
            if pretty {
                out.append("\n  ");
            }
            *first = false;
        } else {
            if pretty {
                out.append(",\n  ");
            } else {
                out.append(",");
            }
        }
        if pretty {
            out.append("\"battery_level\": ");
        } else {
            out.append("\"battery_level\":");
        }
        crate::json::append_bat(out, v);
        proof {
            reveal_strlit("\n  ");
            reveal_strlit(",\n  ");
            reveal_strlit(",");
            reveal_strlit("");
            assert(out@ =~= old(out)@ + cfg_field_seg(s@, pretty, 2, !*old(first)));
        }
    } else {
        proof {
            assert(out@ =~= old(out)@ + cfg_field_seg(s@, pretty, 2, !*old(first)));
        }
    }
}

/// Appends field number 3 of the record, if it is set.
fn cfg_write_is_charging(out: &mut String, first: &mut bool, pretty: bool, s: &ClientState)
    ensures
        final(out)@ == old(out)@ + cfg_field_seg(s@, pretty, 3, !*old(first)),
        *final(first) == (*old(first) && !cfg_present(s@, 3)),
{
    if let Some(v) = s.is_charging {
        if *first {
            if pretty {
                out.append("\n  ");
            }
            *first = false;
        } else {
            if pretty {
                out.append(",\n  ");
            } else {
                out.append(",");
            }
        }
        if pretty {
            out.append("\"is_charging\": ");
        } else {
            out.append("\"is_charging\":");
        }
        if v { out.append("true"); } else { out.append("false"); }
        proof {
            reveal_strlit("\n  ");
            reveal_strlit(",\n  ");
            reveal_strlit(",");
            reveal_strlit("");
            assert(out@ =~= old(out)@ + cfg_field_seg(s@, pretty, 3, !*old(first)));
        }
    } else {
        proof {
            assert(out@ =~= old(out)@ + cfg_field_seg(s@, pretty, 3, !*old(first)));
        }
    }
}

/// Appends field number 4 of the record, if it is set.
fn cfg_write_display_name(out: &mut String, first: &mut bool, pretty: bool, s: &ClientState)
    ensures
        final(out)@ == old(out)@ + cfg_field_seg(s@, pretty, 4, !*old(first)),
        *final(first) == (*old(first) && !cfg_present(s@, 4)),
{
    if let Some(v) = &s.display_name {
        if *first {
            if pretty {
                out.append("\n  ");
            }
            *first = false;
        } else {
            if pretty {
                out.append(",\n  ");
            } else {
                out.append(",");
            }
        }
        if pretty {
            out.append("\"display_name\": ");
        } else {
            out.append("\"display_name\":");
        }
        crate::json::append_qstr(out, v.as_str());
        proof {
            reveal_strlit("\n  ");
            reveal_strlit(",\n  ");
            reveal_strlit(",");
            reveal_strlit("");
            assert(out@ =~= old(out)@ + cfg_field_seg(s@, pretty, 4, !*old(first)));
        }
    } else {
        proof {
            assert(out@ =~= old(out)@ + cfg_field_seg(s@, pretty, 4, !*old(first)));
        }
    }
}

/// Appends field number 5 of the record, if it is set.
fn cfg_write_recv_audio_port(out: &mut String, first: &mut bool, pretty: bool, s: &ClientState)
    ensures
        final(out)@ == old(out)@ + cfg_field_seg(s@, pretty, 5, !*old(first)),
        *final(first) == (*old(first) && !cfg_present(s@, 5)),
{
    if let Some(v) = s.recv_audio_port {
        if *first {
            if pretty {
                out.append("\n  ");
            }
            *first = false;
        } else {
            if pretty {
                out.append(",\n  ");
            } else {
                out.append(",");
            }
        }
        if pretty {
            out.append("\"recv_audio_port\": ");
        } else {
            out.append("\"recv_audio_port\":");
        }
        let t = crate::json::u16_dec(v); out.append(t.as_str());
        proof {
            reveal_strlit("\n  ");
            reveal_strlit(",\n  ");
            reveal_strlit(",");
            reveal_strlit("");
            assert(out@ =~= old(out)@ + cfg_field_seg(s@, pretty, 5, !*old(first)));
        }
    } else {
        proof {
            assert(out@ =~= old(out)@ + cfg_field_seg(s@, pretty, 5, !*old(first)));
        }
    }
}

/// Appends field number 6 of the record, if it is set.
fn cfg_write_recv_repair_port(out: &mut String, first: &mut bool, pretty: bool, s: &ClientState)
    ensures
        final(out)@ == old(out)@ + cfg_field_seg(s@, pretty, 6, !*old(first)),
        *final(first) == (*old(first) && !cfg_present(s@, 6)),
{
    if let Some(v) = s.recv_repair_port {
        if *first {
            if pretty {
                out.append("\n  ");
            }
            *first = false;
        } else {
            if pretty {
                out.append(",\n  ");
            } else {
                out.append(",");
            }
        }
        if pretty {
            out.append("\"recv_repair_port\": ");
        } else {
            out.append("\"recv_repair_port\":");
        }
        let t = crate::json::u16_dec(v); out.append(t.as_str());
        proof {
            reveal_strlit("\n  ");
            reveal_strlit(",\n  ");
            reveal_strlit(",");
            reveal_strlit("");
            assert(out@ =~= old(out)@ + cfg_field_seg(s@, pretty, 6, !*old(first)));
        }
    } else {
        proof {
            assert(out@ =~= old(out)@ + cfg_field_seg(s@, pretty, 6, !*old(first)));
        }
    }
}

/// Appends field number 7 of the record, if it is set.
fn cfg_write_send_audio_port(out: &mut String, first: &mut bool, pretty: bool, s: &ClientState)
    ensures
        final(out)@ == old(out)@ + cfg_field_seg(s@, pretty, 7, !*old(first)),
        *final(first) == (*old(first) && !cfg_present(s@, 7)),
{
    if let Some(v) = s.send_audio_port {
        if *first {
            if pretty {
                out.append("\n  ");
            }
            *first = false;
        } else {
            if pretty {
                out.append(",\n  ");
            } else {
                out.append(",");
            }
        }
        if pretty {
            out.append("\"send_audio_port\": ");
        } else {
            out.append("\"send_audio_port\":");
        }
        let t = crate::json::u16_dec(v); out.append(t.as_str());
        proof {
            reveal_strlit("\n  ");
            reveal_strlit(",\n  ");
            reveal_strlit(",");
            reveal_strlit("");
            assert(out@ =~= old(out)@ + cfg_field_seg(s@, pretty, 7, !*old(first)));
        }
    } else {
        proof {
            assert(out@ =~= old(out)@ + cfg_field_seg(s@, pretty, 7, !*old(first)));
        }
    }
}

/// Appends field number 8 of the record, if it is set.
fn cfg_write_send_repair_port(out: &mut String, first: &mut bool, pretty: bool, s: &ClientState)
    ensures
        final(out)@ == old(out)@ + cfg_field_seg(s@, pretty, 8, !*old(first)),
        *final(first) == (*old(first) && !cfg_present(s@, 8)),
{
    if let Some(v) = s.send_repair_port {
        if *first {
            if pretty {
                out.append("\n  ");
            }
            *first = false;
        } else {
            if pretty {
                out.append(",\n  ");
            } else {
                out.append(",");
            }
        }
        if pretty {
            out.append("\"send_repair_port\": ");
        } else {
            out.append("\"send_repair_port\":");
        }
        let t = crate::json::u16_dec(v); out.append(t.as_str());
        proof {
            reveal_strlit("\n  ");
            reveal_strlit(",\n  ");
            reveal_strlit(",");
            reveal_strlit("");
            assert(out@ =~= old(out)@ + cfg_field_seg(s@, pretty, 8, !*old(first)));
        }
    } else {
        proof {
            assert(out@ =~= old(out)@ + cfg_field_seg(s@, pretty, 8, !*old(first)));
        }
    }
}

/// Appends field number 9 of the record, if it is set.
fn cfg_write_send_mute(out: &mut String, first: &mut bool, pretty: bool, s: &ClientState)
    ensures
        final(out)@ == old(out)@ + cfg_field_seg(s@, pretty, 9, !*old(first)),
        *final(first) == (*old(first) && !cfg_present(s@, 9)),
{
    if let Some(v) = s.send_mute {
        if *first {
            if pretty {
                out.append("\n  ");
            }
            *first = false;
        } else {
            if pretty {
                out.append(",\n  ");
            } else {
                out.append(",");
            }
        }
        if pretty {
            out.append("\"send_mute\": ");
        } else {
            out.append("\"send_mute\":");
        }
        if v { out.append("true"); } else { out.append("false"); }
        proof {
            reveal_strlit("\n  ");
            reveal_strlit(",\n  ");
            reveal_strlit(",");
            reveal_strlit("");
            assert(out@ =~= old(out)@ + cfg_field_seg(s@, pretty, 9, !*old(first)));
        }
    } else {
        proof {
            assert(out@ =~= old(out)@ + cfg_field_seg(s@, pretty, 9, !*old(first)));
        }
    }
}

/// Appends field number 10 of the record, if it is set.
fn cfg_write_recv_mute(out: &mut String, first: &mut bool, pretty: bool, s: &ClientState)
    ensures
        final(out)@ == old(out)@ + cfg_field_seg(s@, pretty, 10, !*old(first)),
        *final(first) == (*old(first) && !cfg_present(s@, 10)),
{
    if let Some(v) = s.recv_mute {
        if *first {
            if pretty {
                out.append("\n  ");
            }
            *first = false;
        } else {
            if pretty {
                out.append(",\n  ");
            } else {
                out.append(",");
            }
        }
        if pretty {
            out.append("\"recv_mute\": ");
        } else {
            out.append("\"recv_mute\":");
        }
        if v { out.append("true"); } else { out.append("false"); }
        proof {
            reveal_strlit("\n  ");
            reveal_strlit(",\n  ");
            reveal_strlit(",");
            reveal_strlit("");
            assert(out@ =~= old(out)@ + cfg_field_seg(s@, pretty, 10, !*old(first)));
        }
    } else {
        proof {
            assert(out@ =~= old(out)@ + cfg_field_seg(s@, pretty, 10, !*old(first)));
        }
    }
}

/// Appends field number 11 of the record, if it is set.
fn cfg_write_send_audio(out: &mut String, first: &mut bool, pretty: bool, s: &ClientState)
    ensures
        final(out)@ == old(out)@ + cfg_field_seg(s@, pretty, 11, !*old(first)),
        *final(first) == (*old(first) && !cfg_present(s@, 11)),
{
    if let Some(v) = s.send_audio {
        if *first {
            if pretty {
                out.append("\n  ");
            }
            *first = false;
        } else {
            if pretty {
                out.append(",\n  ");
            } else {
                out.append(",");
            }
        }
        if pretty {
            out.append("\"send_audio\": ");
        } else {
            out.append("\"send_audio\":");
        }
        if v { out.append("true"); } else { out.append("false"); }
        proof {
            reveal_strlit("\n  ");
            reveal_strlit(",\n  ");
            reveal_strlit(",");
            reveal_strlit("");
            assert(out@ =~= old(out)@ + cfg_field_seg(s@, pretty, 11, !*old(first)));
        }
    } else {
        proof {
            assert(out@ =~= old(out)@ + cfg_field_seg(s@, pretty, 11, !*old(first)));
        }
    }
}

/// Appends field number 12 of the record, if it is set.
fn cfg_write_recv_audio(out: &mut String, first: &mut bool, pretty: bool, s: &ClientState)
    ensures
        final(out)@ == old(out)@ + cfg_field_seg(s@, pretty, 12, !*old(first)),
        *final(first) == (*old(first) && !cfg_present(s@, 12)),
{
    if let Some(v) = s.recv_audio {
        if *first {
            if pretty {
                out.append("\n  ");
            }
            *first = false;
        } else {
            if pretty {
                out.append(",\n  ");
            } else {
                out.append(",");
            }
        }
        if pretty {
            out.append("\"recv_audio\": ");
        } else {
            out.append("\"recv_audio\":");
        }
        if v { out.append("true"); } else { out.append("false"); }
        proof {
            reveal_strlit("\n  ");
            reveal_strlit(",\n  ");
            reveal_strlit(",");
            reveal_strlit("");
            assert(out@ =~= old(out)@ + cfg_field_seg(s@, pretty, 12, !*old(first)));
        }
    } else {
        proof {
            assert(out@ =~= old(out)@ + cfg_field_seg(s@, pretty, 12, !*old(first)));
        }
    }
}

/// Appends field number 13 of the record, if it is set.
fn cfg_write_battery_log_interval_secs(out: &mut String, first: &mut bool, pretty: bool, s: &ClientState)
    ensures
        final(out)@ == old(out)@ + cfg_field_seg(s@, pretty, 13, !*old(first)),
        *final(first) == (*old(first) && !cfg_present(s@, 13)),
{
    if let Some(v) = s.battery_log_interval_secs {
        if *first {
            if pretty {
                out.append("\n  ");
            }
            *first = false;
        } else {
            if pretty {
                out.append(",\n  ");
            } else {
                out.append(",");
            }
        }
        if pretty {
            out.append("\"battery_log_interval_secs\": ");
        } else {
            out.append("\"battery_log_interval_secs\":");
        }
        let t = crate::json::u32_dec(v); out.append(t.as_str());
        proof {
            reveal_strlit("\n  ");
            reveal_strlit(",\n  ");
            reveal_strlit(",");
            reveal_strlit("");
            assert(out@ =~= old(out)@ + cfg_field_seg(s@, pretty, 13, !*old(first)));
        }
    } else {
        proof {
            assert(out@ =~= old(out)@ + cfg_field_seg(s@, pretty, 13, !*old(first)));
        }
    }
}

/// Renders the full sparse state of one client as its configuration
/// document: pretty-printed for the file on disk, compact for comparing
/// against parsed input.
pub fn encode_config(s: &ClientState, pretty: bool) -> (r: String)
    ensures
        r@ == config_doc(s@, pretty),
{
    let mut body = String::new();
    let mut first = true;
    proof {
        assert(body@ =~= cfg_upto(s@, pretty, 0));
    }
    cfg_write_client_name(&mut body, &mut first, pretty, s);
    proof {
        assert(body@ =~= cfg_upto(s@, pretty, 1));
        assert(!first == cfg_any_upto(s@, 1));
    }
    cfg_write_battery_level(&mut body, &mut first, pretty, s);
    proof {
        assert(body@ =~= cfg_upto(s@, pretty, 2));
        assert(!first == cfg_any_upto(s@, 2));
    }
    cfg_write_is_charging(&mut body, &mut first, pretty, s);
    proof {
        assert(body@ =~= cfg_upto(s@, pretty, 3));
        assert(!first == cfg_any_upto(s@, 3));
    }
    cfg_write_display_name(&mut body, &mut first, pretty, s);
    proof {
        assert(body@ =~= cfg_upto(s@, pretty, 4));
        assert(!first == cfg_any_upto(s@, 4));
    }
    cfg_write_recv_audio_port(&mut body, &mut first, pretty, s);
    proof {
        assert(body@ =~= cfg_upto(s@, pretty, 5));
        assert(!first == cfg_any_upto(s@, 5));
    }
    cfg_write_recv_repair_port(&mut body, &mut first, pretty, s);
    proof {
        assert(body@ =~= cfg_upto(s@, pretty, 6));
        assert(!first == cfg_any_upto(s@, 6));
    }
    cfg_write_send_audio_port(&mut body, &mut first, pretty, s);
    proof {
        assert(body@ =~= cfg_upto(s@, pretty, 7));
        assert(!first == cfg_any_upto(s@, 7));
    }
    cfg_write_send_repair_port(&mut body, &mut first, pretty, s);
    proof {
        assert(body@ =~= cfg_upto(s@, pretty, 8));
        assert(!first == cfg_any_upto(s@, 8));
    }
    cfg_write_send_mute(&mut body, &mut first, pretty, s);
    proof {
        assert(body@ =~= cfg_upto(s@, pretty, 9));
        assert(!first == cfg_any_upto(s@, 9));
    }
    cfg_write_recv_mute(&mut body, &mut first, pretty, s);
    proof {
        assert(body@ =~= cfg_upto(s@, pretty, 10));
        assert(!first == cfg_any_upto(s@, 10));
    }
    cfg_write_send_audio(&mut body, &mut first, pretty, s);
    proof {
        assert(body@ =~= cfg_upto(s@, pretty, 11));
        assert(!first == cfg_any_upto(s@, 11));
    }
    cfg_write_recv_audio(&mut body, &mut first, pretty, s);
    proof {
        assert(body@ =~= cfg_upto(s@, pretty, 12));
        assert(!first == cfg_any_upto(s@, 12));
    }
    cfg_write_battery_log_interval_secs(&mut body, &mut first, pretty, s);
    proof {
        assert(body@ =~= cfg_upto(s@, pretty, 13));
        assert(!first == cfg_any_upto(s@, 13));
    }
    let mut out = String::new();
    out.append("{");
    if first {
        out.append("}");
        proof {
            reveal_strlit("{");
            reveal_strlit("}");
            reveal_strlit("{}");
            assert(out@ =~= config_doc(s@, pretty));
        }
    } else {
        out.append(body.as_str());
        if pretty {
            out.append("\n}");
        } else {
            out.append("}");
        }
        proof {
            reveal_strlit("{");
            reveal_strlit("}");
            reveal_strlit("\n}");
            assert(out@ =~= config_doc(s@, pretty));
        }
    }
    out
}

} // verus!
