//! The machine monitor's protocol: what is sent to it, and what its replies say.

use vstd::prelude::*;

use crate::number;
use crate::text;
use crate::wire;

verus! {

/// `char::from_u32` gives the character of a number, and none for the numbers of surrogates and
/// those past the last character.
pub assume_specification[ char::from_u32 ](i: u32) -> (r: Option<char>)
    ensures
        match r {
            Some(c) => c as int == i,
            None => 0xD800 <= i <= 0xDFFF || i > 0x10FFFF,
        },
;

/// The character that a short escape stands for.
pub open spec fn escape_char(c: char) -> char {
    if c == 'n' {
        '\n'
    } else if c == 'r' {
        '\r'
    } else if c == 't' {
        '\t'
    } else if c == 'b' {
        '\x08'
    } else if c == 'f' {
        '\x0C'
    } else {
        c
    }
}

/// A code unit that opens a surrogate pair.
pub open spec fn is_high(u: int) -> bool {
    0xD800 <= u <= 0xDBFF
}

/// A code unit that closes a surrogate pair.
pub open spec fn is_low(u: int) -> bool {
    0xDC00 <= u <= 0xDFFF
}

/// The number of the character that a surrogate pair stands for.
pub open spec fn paired(high: int, low: int) -> int {
    0x10000 + (high - 0xD800) * 0x400 + (low - 0xDC00)
}

/// The code unit that `s` begins with: a backslash, a `u` and four hexadecimal digits.
pub open spec fn unit(s: Seq<char>) -> Option<int> {
    if s.len() >= 6 && s[0] == '\\' && s[1] == 'u' && number::is_numeral(s.subrange(2, 6), 16) {
        Some(number::value(s.subrange(2, 6), 16) as int)
    } else {
        None
    }
}

/// The character of the escape that `s` begins with, and how much of `s` the escape takes up. A
/// broken code unit takes up the four characters behind its `u`, or what there is of them, and
/// stands for a question mark; so does one half of a surrogate pair without the other.
pub open spec fn escape_at(s: Seq<char>) -> (char, int) {
    if s[1] != 'u' {
        (escape_char(s[1]), 2)
    } else {
        match unit(s) {
            None => (
                '?',
                if s.len() < 6 {
                    s.len() as int
                } else {
                    6
                },
            ),
            Some(u) => if is_high(u) {
                match unit(s.skip(6)) {
                    Some(v) => if is_low(v) {
                        (paired(u, v) as char, 12)
                    } else {
                        ('?', 6)
                    },
                    None => ('?', 6),
                }
            } else if is_low(u) {
                ('?', 6)
            } else {
                (u as char, 6)
            },
        }
    }
}

/// The text of a quoted string whose opening quote has been read: up to the closing quote, with
/// its escapes resolved.
pub open spec fn unescaped(s: Seq<char>) -> Seq<char>
    decreases s.len(),
{
    if s.len() == 0 || s[0] == '"' {
        Seq::empty()
    } else if s[0] != '\\' {
        seq![s[0]] + unescaped(s.skip(1))
    } else if s.len() == 1 {
        Seq::empty()
    } else {
        seq![escape_at(s).0] + unescaped(s.skip(escape_at(s).1))
    }
}

/// No character has the number of a surrogate, and its number stands for it alone.
proof fn lemma_no_surrogate(c: char)
    ensures
        !is_high(c as int),
        !is_low(c as int),
        (c as int) as char == c,
{
}

/// A numeral of four hexadecimal digits is below 65536.
proof fn lemma_four_digits(s: Seq<char>)
    requires
        s.len() == 4,
        number::is_numeral(s, 16),
    ensures
        number::value(s, 16) < 0x10000,
{
    reveal_with_fuel(number::value, 5);
    assert(number::digit_value(s[0]) < 16 && number::digit_value(s[1]) < 16);
    assert(number::digit_value(s[2]) < 16 && number::digit_value(s[3]) < 16);
}

/// The code unit that stands at `i`, if one does.
fn unit_at(s: &[char], i: usize) -> (r: Option<u32>)
    requires
        i <= s.len(),
    ensures
        match r {
            Some(u) => unit(s@.skip(i as int)) == Some(u as int) && u < 0x10000,
            None => unit(s@.skip(i as int)) is None,
        },
{
    let ghost here = s@.skip(i as int);
    if s.len() - i < 6 || s[i] != '\\' || s[i + 1] != 'u' {
        return None;
    }
    let d = text::slice(s, i + 2, i + 6);
    assert(d@ =~= here.subrange(2, 6));
    match number::magnitude(d, 16, 0xFFFF) {
        Some(v) => Some(v as u32),
        None => {
            proof {
                if number::is_numeral(d@, 16) {
                    lemma_four_digits(d@);
                }
            }
            None
        },
    }
}

/// The character of the escape at `i`, and how much it takes up.
fn read_escape(s: &[char], i: usize) -> (r: (char, usize))
    requires
        i + 2 <= s.len(),
        s@[i as int] == '\\',
    ensures
        r.0 == escape_at(s@.skip(i as int)).0,
        r.1 == escape_at(s@.skip(i as int)).1,
        2 <= r.1 <= s.len() - i,
{
    let ghost here = s@.skip(i as int);
    assert(here[1] == s@[i + 1]);
    if s[i + 1] != 'u' {
        let e: char = match s[i + 1] {
            'n' => '\n',
            'r' => '\r',
            't' => '\t',
            'b' => '\x08',
            'f' => '\x0C',
            other => other,
        };
        return (e, 2);
    }
    let u: u32 = match unit_at(s, i) {
        None => {
            return (
                '?',
                if s.len() - i < 6 {
                    s.len() - i
                } else {
                    6
                },
            );
        },
        Some(u) => u,
    };
    if 0xD800 <= u && u <= 0xDBFF {
        assert(here.skip(6) =~= s@.skip(i + 6));
        match unit_at(s, i + 6) {
            Some(v) => {
                if 0xDC00 <= v && v <= 0xDFFF {
                    let n: u32 = 0x10000 + (u - 0xD800) * 0x400 + (v - 0xDC00);
                    assert(n == paired(u as int, v as int));
                    match char::from_u32(n) {
                        Some(c) => {
                            proof {
                                lemma_no_surrogate(c);
                            }
                            return (c, 12);
                        },
                        None => {},
                    }
                }
            },
            None => {},
        }
        return ('?', 6);
    }
    match char::from_u32(u) {
        Some(c) => {
            proof {
                lemma_no_surrogate(c);
            }
            (c, 6)
        },
        None => ('?', 6),
    }
}

/// The string that a reply returns: the first quoted string behind its `"return"`.
pub open spec fn returned(line: Seq<char>) -> Seq<char> {
    match text::split_once(line, "\"return\""@) {
        None => Seq::empty(),
        Some((_, rest)) => match text::split_once(rest, "\""@) {
            None => Seq::empty(),
            Some((_, body)) => unescaped(body),
        },
    }
}

/// A text as it stands in a quoted string: backslashes and quotes escaped.
pub open spec fn escaped(s: Seq<char>) -> Seq<char>
    decreases s.len(),
{
    if s.len() == 0 {
        Seq::empty()
    } else if s.last() == '\\' || s.last() == '"' {
        escaped(s.drop_last()).push('\\').push(s.last())
    } else {
        escaped(s.drop_last()).push(s.last())
    }
}

/// The string that a reply returns, its escapes resolved; empty where it returns none.
pub fn unescape_json_return(line: &str) -> (r: String)
    ensures
        r@ == returned(line@),
{
    let c = text::chars_of(line);
    let body = match text::cut(c.as_slice(), "\"return\"") {
        None => {
            return String::new();
        },
        Some((_, rest)) => match text::cut(rest, "\"") {
            None => {
                return String::new();
            },
            Some((_, body)) => body,
        },
    };
    let mut out = String::new();
    let mut i: usize = 0;
    assert(body@.skip(0) =~= body@);
    while i < body.len() && body[i] != '"'
        invariant
            i <= body.len(),
            unescaped(body@) == returned(line@),
            out@ + unescaped(body@.skip(i as int)) == unescaped(body@),
        decreases body.len() - i,
    {
        let ghost here = body@.skip(i as int);
        assert(here[0] == body[i as int]);
        if body[i] != '\\' {
            assert(here.skip(1) =~= body@.skip(i + 1));
            assert(out@ + (seq![here[0]] + unescaped(here.skip(1))) =~= out@.push(here[0])
                + unescaped(here.skip(1)));
            out.push(body[i]);
            i = i + 1;
        } else if body.len() - i == 1 {
            assert(out@ + Seq::<char>::empty() =~= out@);
            return out;
        } else {
            let (e, used) = read_escape(body, i);
            assert(here.skip(used as int) =~= body@.skip(i + used));
            assert(out@ + (seq![e] + unescaped(here.skip(used as int))) =~= out@.push(e)
                + unescaped(here.skip(used as int)));
            out.push(e);
            i = i + used;
        }
    }
    assert(out@ + Seq::<char>::empty() =~= out@);
    out
}

/// Escapes a text for a quoted string.
pub fn escape(s: &str) -> (r: String)
    ensures
        r@ == escaped(s@),
{
    let c = text::chars_of(s);
    let mut out = String::new();
    let mut i: usize = 0;
    while i < c.len()
        invariant
            i <= c.len(),
            c@ == s@,
            out@ == escaped(s@.take(i as int)),
        decreases c.len() - i,
    {
        assert(s@.take(i + 1).drop_last() =~= s@.take(i as int));
        if c[i] == '\\' || c[i] == '"' {
            out.push('\\');
        }
        out.push(c[i]);
        i = i + 1;
    }
    assert(s@.take(i as int) =~= s@);
    out
}

proof fn lemma_escaped_front(s: Seq<char>)
    requires
        s.len() > 0,
    ensures
        escaped(s) == (if s[0] == '\\' || s[0] == '"' {
            seq!['\\', s[0]]
        } else {
            seq![s[0]]
        }) + escaped(s.skip(1)),
    decreases s.len(),
{
    let head = if s[0] == '\\' || s[0] == '"' {
        seq!['\\', s[0]]
    } else {
        seq![s[0]]
    };
    if s.len() == 1 {
        assert(s.drop_last() =~= Seq::<char>::empty());
        assert(s.skip(1) =~= Seq::<char>::empty());
        assert(escaped(s) =~= head + escaped(s.skip(1)));
    } else {
        lemma_escaped_front(s.drop_last());
        assert(s.drop_last().skip(1) =~= s.skip(1).drop_last());
        assert(escaped(s) =~= head + escaped(s.skip(1)));
    }
}

/// A text that is escaped and closed with a quote reads back as it was, whatever follows.
pub proof fn law_escaped_text_reads_back(s: Seq<char>, after: Seq<char>)
    ensures
        unescaped(escaped(s) + "\""@ + after) == s,
    decreases s.len(),
{
    reveal_strlit("\"");
    let q = "\""@;
    let all = escaped(s) + q + after;
    if s.len() == 0 {
        assert(all[0] == '"');
        assert(unescaped(all) =~= s);
    } else {
        lemma_escaped_front(s);
        law_escaped_text_reads_back(s.skip(1), after);
        let tail = escaped(s.skip(1)) + q + after;
        if s[0] == '\\' || s[0] == '"' {
            assert(all.skip(2) =~= tail);
            assert(all[0] == '\\' && all[1] == s[0]);
        } else {
            assert(all.skip(1) =~= tail);
            assert(all[0] == s[0]);
        }
        assert(seq![s[0]] + s.skip(1) =~= s);
    }
}

/// `p` is one of the ways in which a quoted string writes `c`: as it is, with a short escape, as a
/// code unit, or as a surrogate pair.
pub open spec fn spells(p: Seq<char>, c: char) -> bool {
    ||| p == seq![c] && c != '"' && c != '\\'
    ||| p.len() == 2 && p[0] == '\\' && p[1] != 'u' && c == escape_char(p[1])
    ||| p.len() == 6 && unit(p) == Some(c as int)
    ||| {
        &&& p.len() == 12
        &&& unit(p) matches Some(u)
        &&& unit(p.skip(6)) matches Some(v)
        &&& is_high(u)
        &&& is_low(v)
        &&& c as int == paired(u, v)
    }
}

/// A text whose characters are written in any of these ways and closed with a quote reads back as
/// it was, whatever follows.
pub proof fn law_spelled_text_reads_back(parts: Seq<Seq<char>>, s: Seq<char>, after: Seq<char>)
    requires
        parts.len() == s.len(),
        forall|i: int| 0 <= i < s.len() ==> spells(#[trigger] parts[i], s[i]),
    ensures
        unescaped(parts.flatten() + "\""@ + after) == s,
    decreases s.len(),
{
    reveal_strlit("\"");
    let q = "\""@;
    let all = parts.flatten() + q + after;
    if s.len() == 0 {
        assert(all[0] == '"');
        assert(unescaped(all) =~= s);
    } else {
        let p = parts[0];
        let c = s[0];
        let tail = parts.drop_first().flatten() + q + after;
        assert(spells(p, c));
        assert forall|i: int| 0 <= i < s.skip(1).len() implies spells(
            #[trigger] parts.drop_first()[i],
            s.skip(1)[i],
        ) by {
            assert(spells(parts[i + 1], s[i + 1]));
        }
        law_spelled_text_reads_back(parts.drop_first(), s.skip(1), after);
        assert(all =~= p + tail);
        assert(all.skip(p.len() as int) =~= tail);
        if p == seq![c] {
            assert(all[0] == c);
        } else {
            assert(all[0] == p[0] && all[1] == p[1]);
            if p[1] == 'u' {
                assert(all.subrange(2, 6) =~= p.subrange(2, 6));
                lemma_four_digits(p.subrange(2, 6));
                if p.len() == 12 {
                    assert(all.skip(6).subrange(2, 6) =~= p.skip(6).subrange(2, 6));
                    assert(all.skip(6)[0] == p.skip(6)[0] && all.skip(6)[1] == p.skip(6)[1]);
                }
            }
            lemma_no_surrogate(c);
            assert(escape_at(all) == (c, p.len() as int));
        }
        assert(seq![c] + s.skip(1) =~= s);
    }
}

/// What a line from the monitor is.
#[derive(Debug, Clone, Copy, PartialEq, Eq, Structural)]
pub enum Reply {
    /// An event, which answers nothing.
    Event,
    /// The command failed.
    Failed,
    /// The command's answer.
    Answer,
    /// None of these.
    Unexpected,
}

/// What a line from the monitor is.
pub open spec fn reply_of(line: Seq<char>) -> Reply {
    if text::contains(line, "\"event\""@) {
        Reply::Event
    } else if text::contains(line, "\"error\""@) {
        Reply::Failed
    } else if text::contains(line, "\"return\""@) {
        Reply::Answer
    } else {
        Reply::Unexpected
    }
}

/// Tells what a line from the monitor is.
pub fn classify(line: &str) -> (r: Reply)
    ensures
        r == reply_of(line@),
{
    let c = text::chars_of(line);
    if text::has_str(c.as_slice(), "\"event\"") {
        Reply::Event
    } else if text::has_str(c.as_slice(), "\"error\"") {
        Reply::Failed
    } else if text::has_str(c.as_slice(), "\"return\"") {
        Reply::Answer
    } else {
        Reply::Unexpected
    }
}

/// Whether a line is the monitor's greeting.
pub fn is_greeting(line: &str) -> (r: bool)
    ensures
        r == text::contains(line@, "QMP"@),
{
    let c = text::chars_of(line);
    text::has_str(c.as_slice(), "QMP")
}

/// The first line feed in the bytes.
pub open spec fn newline(b: Seq<u8>) -> Option<int>
    decreases b.len(),
{
    if b.len() == 0 {
        None
    } else if b[0] == 0x0A {
        Some(0)
    } else {
        match newline(b.skip(1)) {
            Some(i) => Some(i + 1),
            None => None,
        }
    }
}

/// What an optional string holds.
pub open spec fn opt_view(r: Option<String>) -> Option<Seq<char>> {
    match r {
        Some(s) => Some(s@),
        None => None,
    }
}

/// The first whole line in the bytes, and the bytes behind it; all of them where there is none.
pub open spec fn taken(b: Seq<u8>) -> (Option<Seq<char>>, Seq<u8>) {
    match newline(b) {
        Some(i) => (Some(wire::decoded(b.take(i))), b.skip(i + 1)),
        None => (None, b),
    }
}

/// Takes the first complete line out of what has been received, without its line feed.
pub fn take_line(buf: &mut Vec<u8>) -> (r: Option<String>)
    ensures
        (opt_view(r), final(buf)@) == taken(old(buf)@),
        match newline(old(buf)@) {
            Some(i) => {
                &&& 0 <= i < old(buf)@.len()
                &&& r is Some
                &&& r->0@ == wire::decoded(old(buf)@.take(i))
                &&& final(buf)@ == old(buf)@.skip(i + 1)
            },
            None => r is None && final(buf)@ == old(buf)@,
        },
{
    let mut i: usize = 0;
    let ghost all = buf@;
    assert(all.skip(0) =~= all);
    while i < buf.len()
        invariant
            i <= buf.len(),
            buf@ == all,
            all == old(buf)@,
            match newline(all.skip(i as int)) {
                Some(k) => newline(all) == Some(k + i),
                None => newline(all) is None,
            },
        decreases buf.len() - i,
    {
        assert(all.skip(i as int)[0] == all[i as int]);
        assert(all.skip(i as int).skip(1) =~= all.skip(i + 1));
        if buf[i] == 0x0A {
            let rest = buf.split_off(i + 1);
            let line = wire::lossy(wire::part(buf.as_slice(), 0, i));
            assert(buf@.subrange(0, i as int) =~= all.take(i as int));
            *buf = rest;
            assert(buf@ =~= all.skip(i + 1));
            return Some(line);
        }
        i = i + 1;
    }
    None
}

/// How a switch is written.
pub open spec fn switch(down: bool) -> Seq<char> {
    if down {
        "true"@
    } else {
        "false"@
    }
}

fn push_all(out: &mut String, s: &[char])
    ensures
        final(out)@ == old(out)@ + s@,
{
    let ghost start = out@;
    let mut i: usize = 0;
    assert(start + s@.take(0) =~= start);
    while i < s.len()
        invariant
            i <= s.len(),
            out@ == start + s@.take(i as int),
        decreases s.len() - i,
    {
        out.push(s[i]);
        i = i + 1;
        assert(start + s@.take(i as int) =~= (start + s@.take(i - 1)).push(s[i - 1]));
    }
    assert(s@.take(i as int) =~= s@);
}

fn push_signed(out: &mut String, n: i32)
    ensures
        final(out)@ == old(out)@ + number::written(n as int),
{
    let ghost start = out@;
    if n < 0 {
        out.push('-');
        let d = number::write_number((-(n as i64)) as u64, 10);
        push_all(out, d.as_slice());
        assert(out@ =~= start + number::written(n as int));
    } else {
        let d = number::write_number(n as u64, 10);
        push_all(out, d.as_slice());
    }
}

/// The command that enables the monitor's commands.
pub fn capabilities_command() -> (r: String)
    ensures
        r@ == "{\"execute\":\"qmp_capabilities\"}"@,
{
    String::from_str("{\"execute\":\"qmp_capabilities\"}")
}

/// The command that runs a line in the human monitor.
pub fn monitor_command(line: &str) -> (r: String)
    ensures
        r@ == "{\"execute\":\"human-monitor-command\",\"arguments\":{\"command-line\":\""@
            + escaped(line@) + "\"}}"@,
{
    let mut out = String::from_str(
        "{\"execute\":\"human-monitor-command\",\"arguments\":{\"command-line\":\"",
    );
    let e = escape(line);
    out.append(e.as_str());
    out.append("\"}}");
    out
}

/// The command that presses or releases a key.
pub fn key_command(qcode: &str, down: bool) -> (r: String)
    ensures
        r@ == "{\"execute\":\"input-send-event\",\"arguments\":{\"events\":[{\"type\":\"key\",\n               \"data\":{\"down\":"@
            + switch(down) + ",\"key\":{\"type\":\"qcode\",\"data\":\""@ + qcode@ + "\"}}}]}}"@,
{
    let mut out = String::from_str(
        "{\"execute\":\"input-send-event\",\"arguments\":{\"events\":[{\"type\":\"key\",\n               \"data\":{\"down\":",
    );
    out.append(if down {
        "true"
    } else {
        "false"
    });
    out.append(",\"key\":{\"type\":\"qcode\",\"data\":\"");
    out.append(qcode);
    out.append("\"}}}]}}");
    out
}

/// The command that presses or releases a button.
pub fn button_command(button: &str, down: bool) -> (r: String)
    ensures
        r@ == "{\"execute\":\"input-send-event\",\"arguments\":{\"events\":[{\"type\":\"btn\",\n               \"data\":{\"down\":"@
            + switch(down) + ",\"button\":\""@ + button@ + "\"}}]}}"@,
{
    let mut out = String::from_str(
        "{\"execute\":\"input-send-event\",\"arguments\":{\"events\":[{\"type\":\"btn\",\n               \"data\":{\"down\":",
    );
    out.append(if down {
        "true"
    } else {
        "false"
    });
    out.append(",\"button\":\"");
    out.append(button);
    out.append("\"}}]}}");
    out
}

/// The command that moves the pointer.
pub fn motion_command(dx: i32, dy: i32) -> (r: String)
    ensures
        r@ == "{\"execute\":\"input-send-event\",\"arguments\":{\"events\":[\n               {\"type\":\"rel\",\"data\":{\"axis\":\"x\",\"value\":"@
            + number::written(dx as int)
            + "}},\n               {\"type\":\"rel\",\"data\":{\"axis\":\"y\",\"value\":"@ + number::written(dy as int)
            + "}}]}}"@,
{
    let mut out = String::from_str(
        "{\"execute\":\"input-send-event\",\"arguments\":{\"events\":[\n               {\"type\":\"rel\",\"data\":{\"axis\":\"x\",\"value\":",
    );
    push_signed(&mut out, dx);
    out.append("}},\n               {\"type\":\"rel\",\"data\":{\"axis\":\"y\",\"value\":");
    push_signed(&mut out, dy);
    out.append("}}]}}");
    out
}

/// The command that dumps the screen to a file.
pub fn screendump_command(path: &str) -> (r: String)
    ensures
        r@ == "{\"execute\":\"screendump\",\"arguments\":{\"filename\":\""@ + path@ + "\"}}"@,
{
    let mut out = String::from_str(
        "{\"execute\":\"screendump\",\"arguments\":{\"filename\":\"",
    );
    out.append(path);
    out.append("\"}}");
    out
}

/// The key that types `c` at the greeter: lower-case letters and digits are their own, and the
/// space and the hyphen have names.
pub open spec fn greeter_key_of(c: char) -> Option<Seq<char>> {
    let n = c as int;
    if 97 <= n <= 122 || 48 <= n <= 57 {
        Some(seq![c])
    } else if c == ' ' {
        Some("spc"@)
    } else if c == '-' {
        Some("minus"@)
    } else {
        None
    }
}

/// The key that types `c` at the greeter, if it has one.
pub fn greeter_key(c: char) -> (r: Option<String>)
    ensures
        match r {
            Some(k) => greeter_key_of(c) == Some(k@),
            None => greeter_key_of(c) is None,
        },
{
    let n: u32 = c as u32;
    if (97 <= n && n <= 122) || (48 <= n && n <= 57) {
        let mut s = String::new();
        s.push(c);
        assert(s@ =~= seq![c]);
        Some(s)
    } else if c == ' ' {
        Some(String::from_str("spc"))
    } else if c == '-' {
        Some(String::from_str("minus"))
    } else {
        None
    }
}

/// The key that types `c` at the terminal.
pub fn terminal_key(c: char) -> (r: String)
    ensures
        r@ == (if c == ' ' {
            "spc"@
        } else {
            seq![c]
        }),
{
    if c == ' ' {
        String::from_str("spc")
    } else {
        let mut s = String::new();
        s.push(c);
        assert(s@ =~= seq![c]);
        s
    }
}

/// The short escapes of a quoted string stand for their characters, and what follows is read on.
pub proof fn law_short_escapes_are_resolved(after: Seq<char>)
    ensures
        unescaped(seq!['\\', 'n'] + after) == seq!['\n'] + unescaped(after),
        unescaped(seq!['\\', 'r'] + after) == seq!['\r'] + unescaped(after),
        unescaped(seq!['\\', 't'] + after) == seq!['\t'] + unescaped(after),
        unescaped(seq!['\\', 'b'] + after) == seq!['\x08'] + unescaped(after),
        unescaped(seq!['\\', 'f'] + after) == seq!['\x0C'] + unescaped(after),
        unescaped(seq!['\\', '/'] + after) == seq!['/'] + unescaped(after),
        unescaped(seq!['\\', '"'] + after) == seq!['"'] + unescaped(after),
        unescaped(seq!['\\', '\\'] + after) == seq!['\\'] + unescaped(after),
{
    assert((seq!['\\', 'n'] + after).skip(2) =~= after);
    assert((seq!['\\', 'r'] + after).skip(2) =~= after);
    assert((seq!['\\', 't'] + after).skip(2) =~= after);
    assert((seq!['\\', 'b'] + after).skip(2) =~= after);
    assert((seq!['\\', 'f'] + after).skip(2) =~= after);
    assert((seq!['\\', '/'] + after).skip(2) =~= after);
    assert((seq!['\\', '"'] + after).skip(2) =~= after);
    assert((seq!['\\', '\\'] + after).skip(2) =~= after);
}

/// A character beyond the first sixteen bits is the one that its two halves make up: ten bits from
/// each.
pub proof fn law_a_pair_makes_up_its_character(c: int)
    requires
        0x10000 <= c <= 0x10FFFF,
    ensures
        ({
            let high = 0xD800 + (c - 0x10000) / 0x400;
            let low = 0xDC00 + (c - 0x10000) % 0x400;
            is_high(high) && is_low(low) && paired(high, low) == c && !is_low(high) && !is_high(low)
        }),
{
}

/// A string that is returned reads back, wherever the reply has its braces and its identifier.
pub proof fn law_a_returned_text_reads_back(before: Seq<char>, between: Seq<char>, s: Seq<char>, after: Seq<char>)
    requires
        text::find(before + "\"return\""@, "\"return\""@) == Some(before.len() as int),
        text::lacks(between, '"'),
    ensures
        returned(
            before + "\"return\""@ + (between + "\""@ + (escaped(s) + "\""@ + after)),
        ) == s,
{
    assert("\"return\""@.len() == 8) by {
        reveal_strlit("\"return\"");
    }
    let body = escaped(s) + "\""@ + after;
    law_escaped_text_reads_back(s, after);
    text::lemma_cut_first(before, "\"return\""@, between + "\""@ + body);
    assert("\""@.len() == 1 && "\""@[0] == '"') by {
        reveal_strlit("\"");
    }
    text::lemma_cut(between, "\""@, body);
}

/// A line ends at its first line feed, and bytes without one hold no line yet.
pub proof fn law_a_line_ends_at_its_first_feed(b: Seq<u8>)
    ensures
        match newline(b) {
            Some(i) => 0 <= i < b.len() && b[i] == 10 && forall|j: int| 0 <= j < i ==> b[j] != 10,
            None => forall|j: int| 0 <= j < b.len() ==> b[j] != 10,
        },
    decreases b.len(),
{
    if b.len() > 0 && b[0] != 0x0A {
        law_a_line_ends_at_its_first_feed(b.skip(1));
        match newline(b.skip(1)) {
            Some(i) => {
                assert forall|j: int| 0 <= j < i + 1 implies b[j] != 10 by {
                    if j > 0 {
                        assert(b.skip(1)[j - 1] == b[j]);
                    }
                }
            },
            None => {
                assert forall|j: int| 0 <= j < b.len() implies b[j] != 10 by {
                    if j > 0 {
                        assert(b.skip(1)[j - 1] == b[j]);
                    }
                }
            },
        }
    }
}

/// An answer is a line that returns something and is neither an event nor an error; an event is passed
/// over whatever else it holds.
pub proof fn law_only_a_return_is_an_answer(line: Seq<char>)
    ensures
        reply_of(line) is Answer <==> text::contains(line, "\"return\""@) && !text::contains(
            line,
            "\"error\""@,
        ) && !text::contains(line, "\"event\""@),
        reply_of(line) is Failed <==> text::contains(line, "\"error\""@) && !text::contains(
            line,
            "\"event\""@,
        ),
        reply_of(line) is Event <==> text::contains(line, "\"event\""@),
{
}

/// Two characters that are typed at the greeter are typed with different keys, and a capital is not
/// typed at all.
pub proof fn law_every_character_has_its_own_key(a: char, b: char)
    ensures
        greeter_key_of(a) is Some && greeter_key_of(a) == greeter_key_of(b) ==> a == b,
        65 <= a as int <= 90 ==> greeter_key_of(a) is None,
        97 <= a as int <= 122 || 48 <= a as int <= 57 ==> greeter_key_of(a) == Some(seq![a]),
        greeter_key_of(' ') == Some("spc"@),
        greeter_key_of('-') == Some("minus"@),
{
    assert("spc"@.len() == 3) by {
        reveal_strlit("spc");
    }
    assert("minus"@.len() == 5) by {
        reveal_strlit("minus");
    }
    if greeter_key_of(a) is Some && greeter_key_of(a) == greeter_key_of(b) {
        let k = greeter_key_of(a)->0;
        let m = greeter_key_of(b)->0;
        assert(k.len() == m.len());
        if k.len() == 1 {
            assert(k[0] == a && m[0] == b);
        }
    }
}

/// A line that is whole is taken with its line feed, and what follows it is kept byte for byte; where
/// none is whole nothing is taken.
pub proof fn law_a_taken_line_leaves_the_rest(line: Seq<u8>, rest: Seq<u8>)
    requires
        forall|i: int| 0 <= i < line.len() ==> line[i] != 10,
    ensures
        taken(line + seq![10u8] + rest) == (Some(wire::decoded(line)), rest),
        taken(line) == (None::<Seq<char>>, line),
{
    let b = line + seq![10u8] + rest;
    law_a_line_ends_at_its_first_feed(b);
    law_a_line_ends_at_its_first_feed(line);
    let n = line.len() as int;
    assert(b[n] == 10);
    match newline(b) {
        Some(i) => {
            if i < n {
                assert(b[i] == line[i]);
            }
            assert(i == n);
        },
        None => {},
    }
    assert(b.take(n) =~= line);
    assert(b.skip(n + 1) =~= rest);
}

} // verus!
