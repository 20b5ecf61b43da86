//! Compact textual rendering of JSON documents, and the bounded preview of a
//! value that difference facts carry.
//!
//! The rendering is the usual compact form: object entries in their canonical
//! order, strings quoted with standard JSON escapes, numbers as the decimal
//! rendering they carry.

use vstd::prelude::*;
use vstd::string::StringExecFns;

verus! {

use crate::json::JsonValue;
use crate::strutil::dec_str;
use crate::strutil::push_char;
use crate::strutil::usize_to_string;

/// The lower-case hexadecimal digit character for `d`.
pub open spec fn hex_digit(d: int) -> char {
    if d < 10 {
        ((48 + d) as u8) as char
    } else {
        ((87 + d) as u8) as char
    }
}

/// The JSON escape of one character inside a quoted string: quote and
/// backslash are backslash-escaped, the five short control escapes are used
/// where they exist, any other control character becomes a `\u00..` escape,
/// and everything else stands for itself.
pub open spec fn escape_char(c: char) -> Seq<char> {
    if c == '"' {
        seq!['\\', '"']
    } else if c == '\\' {
        seq!['\\', '\\']
    } else if c == '\u{8}' {
        seq!['\\', 'b']
    } else if c == '\u{9}' {
        seq!['\\', 't']
    } else if c == '\u{a}' {
        seq!['\\', 'n']
    } else if c == '\u{c}' {
        seq!['\\', 'f']
    } else if c == '\u{d}' {
        seq!['\\', 'r']
    } else if (c as u32) < 32 {
        seq!['\\', 'u', '0', '0', hex_digit((c as u32) as int / 16), hex_digit((c as u32) as int % 16)]
    } else {
        seq![c]
    }
}

/// The JSON escape of the suffix of `s` starting at `i`.
pub open spec fn escape_from(s: Seq<char>, i: int) -> Seq<char>
    decreases s.len() - i,
{
    if i >= s.len() {
        Seq::empty()
    } else {
        escape_char(s[i]) + escape_from(s, i + 1)
    }
}

/// A quoted, escaped JSON string.
pub open spec fn quoted(s: Seq<char>) -> Seq<char> {
    seq!['"'] + escape_from(s, 0) + seq!['"']
}

/// The compact rendering of a document.
pub open spec fn render(v: JsonValue) -> Seq<char>
    decreases v, 0nat, 0nat,
{
    match v {
        JsonValue::Null => "null"@,
        JsonValue::Bool(b) => if b {
            "true"@
        } else {
            "false"@
        },
        JsonValue::Number(s) => s@,
        JsonValue::Text(s) => quoted(s@),
        JsonValue::Array(items) => seq!['['] + render_items(items@, 0) + seq![']'],
        JsonValue::Object(entries) => seq!['{'] + render_entries(entries@, 0) + seq!['}'],
    }
}

/// The comma-separated renderings of the array elements from `i` on.
pub open spec fn render_items(s: Seq<JsonValue>, i: int) -> Seq<char>
    decreases s, 1nat, s.len() - i,
{
    if i < 0 || i >= s.len() {
        Seq::empty()
    } else {
        (if i > 0 {
            seq![',']
        } else {
            Seq::empty()
        }) + render(s[i]) + render_items(s, i + 1)
    }
}

/// The comma-separated `"key":value` renderings of the object entries from
/// `i` on.
pub open spec fn render_entries(s: Seq<(String, JsonValue)>, i: int) -> Seq<char>
    decreases s, 1nat, s.len() - i,
{
    if i < 0 || i >= s.len() {
        Seq::empty()
    } else {
        (if i > 0 {
            seq![',']
        } else {
            Seq::empty()
        }) + quoted(s[i].0@) + seq![':'] + render(s[i].1) + render_entries(s, i + 1)
    }
}

/// Appends the JSON escape of `s` to `out`.
#[verifier::loop_isolation(false)]
fn append_escaped(out: &mut String, s: &str)
    ensures
        final (out)@ == old(out)@ + escape_from(s@, 0),
{
    let v = crate::strutil::chars_of(s);
    let mut i: usize = 0;
    while i < v.len()
        invariant
            0 <= i <= v@.len(),
            v@ == s@,
            out@ + escape_from(s@, i as int) == old(out)@ + escape_from(s@, 0),
        decreases v@.len() - i,
    {
        let c = v[i];
        let cu = c as u32;
        if c == '"' {
            push_char(out, '\\');
            push_char(out, '"');
        } else if c == '\\' {
            push_char(out, '\\');
            push_char(out, '\\');
        } else if c == '\u{8}' {
            push_char(out, '\\');
            push_char(out, 'b');
        } else if c == '\u{9}' {
            push_char(out, '\\');
            push_char(out, 't');
        } else if c == '\u{a}' {
            push_char(out, '\\');
            push_char(out, 'n');
        } else if c == '\u{c}' {
            push_char(out, '\\');
            push_char(out, 'f');
        } else if c == '\u{d}' {
            push_char(out, '\\');
            push_char(out, 'r');
        } else if cu < 32 {
            push_char(out, '\\');
            push_char(out, 'u');
            push_char(out, '0');
            push_char(out, '0');
            let hi: u32 = cu / 16;
            let lo: u32 = cu % 16;
            let hc: char = if hi < 10 {
                (48 + hi as u8) as char
            } else {
                (87 + hi as u8) as char
            };
            let lc: char = if lo < 10 {
                (48 + lo as u8) as char
            } else {
                (87 + lo as u8) as char
            };
            push_char(out, hc);
            push_char(out, lc);
        } else {
            push_char(out, c);
        }
        proof {
            assert(escape_from(s@, i as int) =~= escape_char(s@[i as int]) + escape_from(
                s@,
                i + 1,
            ));
            assert(out@ + escape_from(s@, i + 1) =~= old(out)@ + escape_from(s@, 0));
        }
        i += 1;
    }
}

/// Appends the quoted, escaped form of `s` to `out`.
fn append_quoted(out: &mut String, s: &str)
    ensures
        final (out)@ == old(out)@ + quoted(s@),
{
    push_char(out, '"');
    append_escaped(out, s);
    push_char(out, '"');
    proof {
        assert(out@ =~= old(out)@ + quoted(s@));
    }
}

/// Appends the compact rendering of `v` to `out`.
#[verifier::loop_isolation(false)]
fn append_render(out: &mut String, v: &JsonValue)
    ensures
        final (out)@ == old(out)@ + render(*v),
    decreases *v,
{
    match v {
        JsonValue::Null => {
            out.append("null");
        },
        JsonValue::Bool(b) => {
            if *b {
                out.append("true");
            } else {
                out.append("false");
            }
        },
        JsonValue::Number(s) => {
            out.append(s.as_str());
        },
        JsonValue::Text(s) => {
            append_quoted(out, s.as_str());
        },
        JsonValue::Array(items) => {
            push_char(out, '[');
            let mut i: usize = 0;
            while i < items.len()
                invariant
                    0 <= i <= items@.len(),
                    out@ + render_items(items@, i as int) == old(out)@ + seq!['['] + render_items(
                        items@,
                        0,
                    ),
                decreases items@.len() - i,
            {
                if i > 0 {
                    push_char(out, ',');
                }
                append_render(out, &items[i]);
                proof {
                    assert(out@ + render_items(items@, i + 1) =~= old(out)@ + seq![
                        '[',
                    ] + render_items(items@, 0));
                }
                i += 1;
            }
            push_char(out, ']');
            proof {
                assert(out@ =~= old(out)@ + render(*v));
            }
        },
        JsonValue::Object(entries) => {
            push_char(out, '{');
            let mut i: usize = 0;
            while i < entries.len()
                invariant
                    0 <= i <= entries@.len(),
                    out@ + render_entries(entries@, i as int) == old(out)@ + seq![
                        '{',
                    ] + render_entries(entries@, 0),
                decreases entries@.len() - i,
            {
                if i > 0 {
                    push_char(out, ',');
                }
                append_quoted(out, entries[i].0.as_str());
                push_char(out, ':');
                append_render(out, &entries[i].1);
                proof {
                    assert(out@ + render_entries(entries@, i + 1) =~= old(out)@ + seq![
                        '{',
                    ] + render_entries(entries@, 0));
                }
                i += 1;
            }
            push_char(out, '}');
            proof {
                assert(out@ =~= old(out)@ + render(*v));
            }
        },
    }
}

/// The compact rendering of a document, as a string.
pub fn render_json(v: &JsonValue) -> (r: String)
    ensures
        r@ == render(*v),
{
    let mut out = String::new();
    append_render(&mut out, v);
    proof {
        assert(out@ =~= render(*v));
    }
    out
}

/// The bounded human-readable preview of a value that difference facts
/// carry: long strings are ellipsis-truncated at `max_len` characters,
/// arrays of more than three elements collapse to an element count, objects
/// of more than two entries collapse to an entry count, and anything else is
/// rendered verbatim.
pub open spec fn preview(v: JsonValue, max_len: nat) -> Seq<char> {
    match v {
        JsonValue::Text(s) => if s@.len() > max_len {
            seq!['"'] + s@.take(max_len as int) + "..."@ + seq!['"']
        } else {
            seq!['"'] + s@ + seq!['"']
        },
        JsonValue::Array(items) => if items@.len() > 3 {
            "Array["@ + dec_str(items@.len()) + seq![']']
        } else {
            render(v)
        },
        JsonValue::Object(entries) => if entries@.len() > 2 {
            "Object{"@ + dec_str(entries@.len()) + "keys}"@
        } else {
            render(v)
        },
        _ => render(v),
    }
}

/// Renders the bounded preview of a value, truncating strings longer than
/// `max_length` characters.
pub fn format_value(value: &JsonValue, max_length: usize) -> (r: String)
    ensures
        r@ == preview(*value, max_length as nat),
{
    match value {
        JsonValue::Text(s) => {
            let mut out = String::new();
            push_char(&mut out, '"');
            let v = crate::strutil::chars_of(s.as_str());
            if v.len() > max_length {
                let t = crate::strutil::take_chars(s.as_str(), max_length);
                out.append(t.as_str());
                out.append("...");
            } else {
                out.append(s.as_str());
            }
            push_char(&mut out, '"');
            proof {
                assert(out@ =~= preview(*value, max_length as nat));
            }
            out
        },
        JsonValue::Array(items) => {
            if items.len() > 3 {
                let mut out = String::new();
                out.append("Array[");
                let n = usize_to_string(items.len());
                out.append(n.as_str());
                push_char(&mut out, ']');
                proof {
                    assert(out@ =~= preview(*value, max_length as nat));
                }
                out
            } else {
                render_json(value)
            }
        },
        JsonValue::Object(entries) => {
            if entries.len() > 2 {
                let mut out = String::new();
                out.append("Object{");
                let n = usize_to_string(entries.len());
                out.append(n.as_str());
                out.append("keys}");
                proof {
                    assert(out@ =~= preview(*value, max_length as nat));
                }
                out
            } else {
                render_json(value)
            }
        },
        _ => render_json(value),
    }
}

} // verus!
