//! Rendering of protocol messages and configuration records as JSON text.
//!
//! The wire grammar is deliberately narrow and fully specified here: one
//! document per message, keys in a fixed order, no whitespace outside
//! strings, and strings that carry neither quotes, backslashes nor control
//! characters. What this module writes is exactly what `parse` accepts, so
//! the pair pins the byte-level protocol down completely.
use vstd::prelude::*;

use crate::messages::InMsgV;
use crate::messages::MessagesFromServer;
use crate::messages::OutMsgV;

verus! {

/// The decimal digit `d` as a character (for `0 <= d <= 9`).
pub open spec fn digit_char(d: int) -> char {
    if d == 0 {
        '0'
    } else if d == 1 {
        '1'
    } else if d == 2 {
        '2'
    } else if d == 3 {
        '3'
    } else if d == 4 {
        '4'
    } else if d == 5 {
        '5'
    } else if d == 6 {
        '6'
    } else if d == 7 {
        '7'
    } else if d == 8 {
        '8'
    } else {
        '9'
    }
}

/// The usual decimal rendering of `n`: no sign, no leading zeros (except
/// for the number zero itself).
pub open spec fn dec_digits(n: nat) -> Seq<char>
    decreases n,
{
    if n < 10 {
        seq![digit_char(n as int)]
    } else {
        dec_digits(n / 10) + seq![digit_char((n % 10) as int)]
    }
}

/// A character that may stand inside a JSON string of this grammar:
/// anything but a quote, a backslash or a control character.
pub open spec fn char_ok(c: char) -> bool {
    c != '"' && c != '\\' && (c as int) >= 32
}

/// A string every character of which the grammar accepts.
pub open spec fn text_ok(s: Seq<char>) -> bool {
    forall|i: int| 0 <= i < s.len() ==> char_ok(#[trigger] s[i])
}

/// The quoted form of a wire string. The wire grammar needs no escaping,
/// since the characters it accepts never collide with the delimiters.
pub open spec fn jstr(s: Seq<char>) -> Seq<char> {
    seq!['"'] + s + seq!['"']
}

/// A hexadecimal digit (for `0 <= d <= 15`), lower case.
pub open spec fn hex_char(d: int) -> char {
    if d < 10 {
        digit_char(d)
    } else if d == 10 {
        'a'
    } else if d == 11 {
        'b'
    } else if d == 12 {
        'c'
    } else if d == 13 {
        'd'
    } else if d == 14 {
        'e'
    } else {
        'f'
    }
}

/// The escaped form of one character inside a configuration string:
/// quotes and backslashes get a backslash, control characters the
/// six-character unicode escape, everything else stands as itself.
pub open spec fn esc_char(c: char) -> Seq<char> {
    if c == '"' {
        seq!['\\', '"']
    } else if c == '\\' {
        seq!['\\', '\\']
    } else if (c as int) < 32 {
        seq!['\\', 'u', '0', '0', hex_char((c as int) / 16), hex_char((c as int) % 16)]
    } else {
        seq![c]
    }
}

/// The escaped form of a whole string.
pub open spec fn esc(s: Seq<char>) -> Seq<char>
    decreases s.len(),
{
    if s.len() == 0 {
        Seq::empty()
    } else {
        esc_char(s[0]) + esc(s.drop_first())
    }
}

/// The quoted, escaped form of a configuration string: every string is
/// representable, so a client's state is always persistable.
pub open spec fn qstr(s: Seq<char>) -> Seq<char> {
    seq!['"'] + esc(s) + seq!['"']
}

/// A string the wire grammar accepts needs no escaping at all.
pub proof fn lemma_esc_id(s: Seq<char>)
    requires
        text_ok(s),
    ensures
        esc(s) == s,
    decreases s.len(),
{
    if s.len() > 0 {
        assert(char_ok(s[0]));
        lemma_esc_id(s.drop_first());
        assert(esc(s) =~= s);
    }
}

/// Escaping distributes over appending one character.
pub proof fn lemma_esc_push(s: Seq<char>, c: char)
    ensures
        esc(s.push(c)) == esc(s) + esc_char(c),
    decreases s.len(),
{
    if s.len() == 0 {
        assert(s.push(c).drop_first() =~= Seq::<char>::empty());
        assert(s.push(c)[0] == c);
        assert(esc(s.push(c)) == esc_char(c) + esc(s.push(c).drop_first()));
        assert(esc(s.push(c)) =~= esc(s) + esc_char(c));
    } else {
        lemma_esc_push(s.drop_first(), c);
        assert(s.push(c).drop_first() =~= s.drop_first().push(c));
        assert(s.push(c)[0] == s[0]);
        assert(esc(s.push(c)) == esc_char(s[0]) + esc(s.drop_first().push(c)));
        assert(esc(s.drop_first().push(c)) == esc(s.drop_first()) + esc_char(c));
        assert(esc(s.push(c)) =~= esc(s) + esc_char(c));
    }
}

/// One hexadecimal digit as text.
fn hex_lit(d: u32) -> (r: &'static str)
    requires
        d < 16,
    ensures
        r@ == seq![hex_char(d as int)],
{
    let r: &'static str = if d == 10 {
        "a"
    } else if d == 11 {
        "b"
    } else if d == 12 {
        "c"
    } else if d == 13 {
        "d"
    } else if d == 14 {
        "e"
    } else if d == 15 {
        "f"
    } else {
        return digit_lit(d);
    };
    proof {
        reveal_strlit("a");
        reveal_strlit("b");
        reveal_strlit("c");
        reveal_strlit("d");
        reveal_strlit("e");
        reveal_strlit("f");
        assert(r@ =~= seq![hex_char(d as int)]);
    }
    r
}

/// Appends the single character at position `i` of `v`.
fn append_one_char(out: &mut String, v: &str, i: usize)
    requires
        i < v@.len(),
    ensures
        final(out)@ == old(out)@ + seq![v@[i as int]],
{
    let n = v.unicode_len();
    let piece = v.substring_char(i, i + 1);
    out.append(piece);
    proof {
        assert(piece@ =~= seq![v@[i as int]]);
    }
}

/// Appends the quoted, escaped form of `v`.
pub fn append_qstr(out: &mut String, v: &str)
    ensures
        final(out)@ == old(out)@ + qstr(v@),
{
    out.append("\"");
    let n = v.unicode_len();
    let mut i: usize = 0;
    proof {
        reveal_strlit("\"");
        assert(v@.take(0) =~= Seq::<char>::empty());
        assert(out@ =~= old(out)@ + seq!['"'] + esc(v@.take(0)));
    }
    while i < n
        invariant
            i <= n,
            n == v@.len(),
            out@ == old(out)@ + seq!['"'] + esc(v@.take(i as int)),
        decreases n - i,
    {
        let c = v.get_char(i);
        let code = c as u32;
        if c == '"' {
            out.append("\\\"");
            proof {
                reveal_strlit("\\\"");
            }
        } else if c == '\\' {
            out.append("\\\\");
            proof {
                reveal_strlit("\\\\");
            }
        } else if code < 32 {
            out.append("\\u00");
            out.append(hex_lit(code / 16));
            out.append(hex_lit(code % 16));
            proof {
                reveal_strlit("\\u00");
            }
        } else {
            append_one_char(out, v, i);
        }
        proof {
            lemma_esc_push(v@.take(i as int), c);
            assert(v@.take(i as int + 1) =~= v@.take(i as int).push(c));
            assert(out@ =~= old(out)@ + seq!['"'] + esc(v@.take(i as int + 1)));
        }
        i += 1;
    }
    out.append("\"");
    proof {
        reveal_strlit("\"");
        assert(v@.take(n as int) =~= v@);
        assert(out@ =~= old(out)@ + qstr(v@));
    }
}

/// `true` or `false`.
pub open spec fn bool_chars(b: bool) -> Seq<char> {
    if b {
        "true"@
    } else {
        "false"@
    }
}

/// A battery level in thousandths rendered as a decimal fraction of one:
/// an integer part, a point, and one to three fraction digits with
/// trailing zeros dropped (750 is "0.75", 1000 is "1.0").
pub open spec fn bat_chars(m: nat) -> Seq<char> {
    let d1 = ((m / 100) % 10) as int;
    let d2 = ((m / 10) % 10) as int;
    let d3 = (m % 10) as int;
    dec_digits(m / 1000) + seq!['.'] + (if d3 != 0 {
        seq![digit_char(d1), digit_char(d2), digit_char(d3)]
    } else if d2 != 0 {
        seq![digit_char(d1), digit_char(d2)]
    } else {
        seq![digit_char(d1)]
    })
}

/// The canonical document of an outbound message: one JSON object, the
/// discriminator first, fields in declaration order, no whitespace.
pub open spec fn out_msg_doc(m: OutMsgV) -> Seq<char> {
    match m {
        OutMsgV::DisplayName(n) => "{\"type\":\"DisplayName\",\"display_name\":"@ + jstr(n)
            + "}"@,
        OutMsgV::AudioStream(ra, rr, sa, sr) => "{\"type\":\"AudioStream\",\"recv_audio_port\":"@
            + dec_digits(ra as nat) + ",\"recv_repair_port\":"@ + dec_digits(rr as nat)
            + ",\"send_audio_port\":"@ + dec_digits(sa as nat) + ",\"send_repair_port\":"@
            + dec_digits(sr as nat) + "}"@,
        OutMsgV::MuteAudio(sm, rm) => "{\"type\":\"MuteAudio\",\"send_mute\":"@ + bool_chars(sm)
            + ",\"recv_mute\":"@ + bool_chars(rm) + "}"@,
        OutMsgV::TransmitAudio(sa, ra) => "{\"type\":\"TransmitAudio\",\"send_audio\":"@
            + bool_chars(sa) + ",\"recv_audio\":"@ + bool_chars(ra) + "}"@,
        OutMsgV::BatLogInterval(i) => "{\"type\":\"BatLogInterval\",\"battery_log_interval_secs\":"@
            + (match i {
            Some(v) => dec_digits(v as nat),
            None => "null"@,
        }) + "}"@,
    }
}

/// The canonical document of an inbound message, in the same grammar.
pub open spec fn in_msg_doc(m: InMsgV) -> Seq<char> {
    match m {
        InMsgV::Hello(n) => "{\"type\":\"Hello\",\"client_name\":"@ + jstr(n) + "}"@,
        InMsgV::Ping => "{\"type\":\"Ping\"}"@,
        InMsgV::BatteryLevel(l, c) => "{\"type\":\"BatteryLevel\",\"level\":"@ + bat_chars(
            l as nat,
        ) + ",\"is_charging\":"@ + bool_chars(c) + "}"@,
        InMsgV::LogMsg(t) => "{\"type\":\"LogMsg\",\"message\":"@ + jstr(t) + "}"@,
        InMsgV::DisplayName(n) => "{\"type\":\"DisplayName\",\"display_name\":"@ + jstr(n) + "}"@,
        InMsgV::AudioStream(ra, rr, sa, sr) => "{\"type\":\"AudioStream\",\"recv_audio_port\":"@
            + dec_digits(ra as nat) + ",\"recv_repair_port\":"@ + dec_digits(rr as nat)
            + ",\"send_audio_port\":"@ + dec_digits(sa as nat) + ",\"send_repair_port\":"@
            + dec_digits(sr as nat) + "}"@,
        InMsgV::MuteAudio(sm, rm) => "{\"type\":\"MuteAudio\",\"send_mute\":"@ + bool_chars(sm)
            + ",\"recv_mute\":"@ + bool_chars(rm) + "}"@,
        InMsgV::TransmitAudio(sa, ra) => "{\"type\":\"TransmitAudio\",\"send_audio\":"@
            + bool_chars(sa) + ",\"recv_audio\":"@ + bool_chars(ra) + "}"@,
    }
}

/// One decimal digit as text.
fn digit_lit(d: u32) -> (r: &'static str)
    requires
        d < 10,
    ensures
        r@ == seq![digit_char(d as int)],
{
    let r: &'static str = if d == 0 {
        "0"
    } else if d == 1 {
        "1"
    } else if d == 2 {
        "2"
    } else if d == 3 {
        "3"
    } else if d == 4 {
        "4"
    } else if d == 5 {
        "5"
    } else if d == 6 {
        "6"
    } else if d == 7 {
        "7"
    } else if d == 8 {
        "8"
    } else {
        "9"
    };
    proof {
        reveal_strlit("0");
        reveal_strlit("1");
        reveal_strlit("2");
        reveal_strlit("3");
        reveal_strlit("4");
        reveal_strlit("5");
        reveal_strlit("6");
        reveal_strlit("7");
        reveal_strlit("8");
        reveal_strlit("9");
        assert(r@ =~= seq![digit_char(d as int)]);
    }
    r
}

/// Renders `n` in decimal.
pub fn u32_dec(n: u32) -> (s: String)
    ensures
        s@ == dec_digits(n as nat),
    decreases n,
{
    if n < 10 {
        String::from_str(digit_lit(n))
    } else {
        let mut s = u32_dec(n / 10);
        s.append(digit_lit(n % 10));
        proof {
            assert(s@ =~= dec_digits(n as nat));
        }
        s
    }
}

/// Renders a port number in decimal.
pub fn u16_dec(n: u16) -> (s: String)
    ensures
        s@ == dec_digits(n as nat),
{
    u32_dec(n as u32)
}

/// Appends `true` or `false`.
fn append_bool(out: &mut String, b: bool)
    ensures
        final(out)@ == old(out)@ + bool_chars(b),
{
    if b {
        out.append("true");
    } else {
        out.append("false");
    }
}

/// Appends the quoted form of `v`.
pub fn append_jstr(out: &mut String, v: &str)
    ensures
        final(out)@ == old(out)@ + jstr(v@),
{
    out.append("\"");
    out.append(v);
    out.append("\"");
    proof {
        reveal_strlit("\"");
        assert(out@ =~= old(out)@ + jstr(v@));
    }
}

/// Appends a battery level in thousandths as a decimal fraction.
pub fn append_bat(out: &mut String, m: u32)
    ensures
        final(out)@ == old(out)@ + bat_chars(m as nat),
{
    let whole = u32_dec(m / 1000);
    out.append(whole.as_str());
    out.append(".");
    let d1 = (m / 100) % 10;
    let d2 = (m / 10) % 10;
    let d3 = m % 10;
    if d3 != 0 {
        out.append(digit_lit(d1));
        out.append(digit_lit(d2));
        out.append(digit_lit(d3));
    } else if d2 != 0 {
        out.append(digit_lit(d1));
        out.append(digit_lit(d2));
    } else {
        out.append(digit_lit(d1));
    }
    proof {
        reveal_strlit(".");
        assert(out@ =~= old(out)@ + bat_chars(m as nat));
    }
}

/// Renders one outbound message as its canonical JSON document (without
/// the trailing newline the wire adds after each document).
pub fn encode_server_message(m: &MessagesFromServer) -> (r: String)
    ensures
        r@ == out_msg_doc(m@),
{
    let mut out = String::new();
    match m {
        MessagesFromServer::DisplayName(d) => {
            out.append("{\"type\":\"DisplayName\",\"display_name\":");
            append_jstr(&mut out, d.display_name.as_str());
            out.append("}");
        }
        MessagesFromServer::AudioStream(a) => {
            out.append("{\"type\":\"AudioStream\",\"recv_audio_port\":");
            let t = u16_dec(a.recv_audio_port);
            out.append(t.as_str());
            out.append(",\"recv_repair_port\":");
            let t = u16_dec(a.recv_repair_port);
            out.append(t.as_str());
            out.append(",\"send_audio_port\":");
            let t = u16_dec(a.send_audio_port);
            out.append(t.as_str());
            out.append(",\"send_repair_port\":");
            let t = u16_dec(a.send_repair_port);
            out.append(t.as_str());
            out.append("}");
        }
        MessagesFromServer::MuteAudio(mm) => {
            out.append("{\"type\":\"MuteAudio\",\"send_mute\":");
            append_bool(&mut out, mm.send_mute);
            out.append(",\"recv_mute\":");
            append_bool(&mut out, mm.recv_mute);
            out.append("}");
        }
        MessagesFromServer::TransmitAudio(t) => {
            out.append("{\"type\":\"TransmitAudio\",\"send_audio\":");
            append_bool(&mut out, t.send_audio);
            out.append(",\"recv_audio\":");
            append_bool(&mut out, t.recv_audio);
            out.append("}");
        }
        MessagesFromServer::BatLogInterval(b) => {
            out.append("{\"type\":\"BatLogInterval\",\"battery_log_interval_secs\":");
            match b.battery_log_interval_secs {
                Some(v) => {
                    let t = u32_dec(v);
                    out.append(t.as_str());
                }
                None => {
                    out.append("null");
                }
            }
            out.append("}");
        }
    }
    proof {
        assert(out@ =~= out_msg_doc(m@));
    }
    out
}

/// Renders one inbound message as its canonical JSON document; the
/// decoder accepts exactly these documents.
pub fn encode_client_message(m: &crate::messages::MessageToServer) -> (r: String)
    ensures
        r@ == in_msg_doc(m@),
{
    let mut out = String::new();
    match m {
        crate::messages::MessageToServer::Hello(h) => {
            out.append("{\"type\":\"Hello\",\"client_name\":");
            append_jstr(&mut out, h.client_name.as_str());
            out.append("}");
        }
        crate::messages::MessageToServer::Ping => {
            out.append("{\"type\":\"Ping\"}");
        }
        crate::messages::MessageToServer::BatteryLevel(b) => {
            out.append("{\"type\":\"BatteryLevel\",\"level\":");
            append_bat(&mut out, b.level);
            out.append(",\"is_charging\":");
            append_bool(&mut out, b.is_charging);
            out.append("}");
        }
        crate::messages::MessageToServer::LogMsg(l) => {
            out.append("{\"type\":\"LogMsg\",\"message\":");
            append_jstr(&mut out, l.message.as_str());
            out.append("}");
        }
        crate::messages::MessageToServer::DisplayName(d) => {
            out.append("{\"type\":\"DisplayName\",\"display_name\":");
            append_jstr(&mut out, d.display_name.as_str());
            out.append("}");
        }
        crate::messages::MessageToServer::AudioStream(a) => {
            out.append("{\"type\":\"AudioStream\",\"recv_audio_port\":");
            let t = u16_dec(a.recv_audio_port);
            out.append(t.as_str());
            out.append(",\"recv_repair_port\":");
            let t = u16_dec(a.recv_repair_port);
            out.append(t.as_str());
            out.append(",\"send_audio_port\":");
            let t = u16_dec(a.send_audio_port);
            out.append(t.as_str());
            out.append(",\"send_repair_port\":");
            let t = u16_dec(a.send_repair_port);
            out.append(t.as_str());
            out.append("}");
        }
        crate::messages::MessageToServer::MuteAudio(mm) => {
            out.append("{\"type\":\"MuteAudio\",\"send_mute\":");
            append_bool(&mut out, mm.send_mute);
            out.append(",\"recv_mute\":");
            append_bool(&mut out, mm.recv_mute);
            out.append("}");
        }
        crate::messages::MessageToServer::TransmitAudio(t) => {
            out.append("{\"type\":\"TransmitAudio\",\"send_audio\":");
            append_bool(&mut out, t.send_audio);
            out.append(",\"recv_audio\":");
            append_bool(&mut out, t.recv_audio);
            out.append("}");
        }
    }
    proof {
        assert(out@ =~= in_msg_doc(m@));
    }
    out
}

} // verus!

