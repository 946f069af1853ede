use vstd::prelude::*;
use vstd::string::StringExecFns;

use crate::registry::names_view;
use crate::text::{decimal, push_decimal};

verus! {

/// A value as read back from the store.
pub enum DumpValue {
    Dword(u32),
    /// A text value, plain or with environment references.
    Text(String),
    /// Any other kind, as its raw bytes.
    Other(Vec<u8>),
}

/// A named value of a key.
pub struct NamedValue {
    pub name: String,
    pub value: DumpValue,
}

/// A subkey of the policy key with its values.
pub struct SubkeySnapshot {
    pub name: String,
    pub values: Vec<NamedValue>,
}

/// What the policy key holds, as read back from the store.
pub struct KeySnapshot {
    pub values: Vec<NamedValue>,
    pub subkeys: Vec<SubkeySnapshot>,
}

pub const POLICY_KEY_PATH: &'static str = "HKCU\\SOFTWARE\\Policies\\Microsoft\\Edge";
pub const NO_POLICIES: &'static str = "No HKCU Edge policies found.";

/// The bytes in decimal, separated by `", "`.
pub open spec fn bytes_join(b: Seq<u8>) -> Seq<char>
    decreases b.len(),
{
    if b.len() == 0 {
        Seq::empty()
    } else if b.len() == 1 {
        decimal(b[0] as nat)
    } else {
        bytes_join(b.drop_last()) + ", "@ + decimal(b.last() as nat)
    }
}

/// How a value is shown: `DWORD(<n>)`, `"<text>"`, or the bytes as `[b0, b1, ...]`.
pub open spec fn value_text(v: DumpValue) -> Seq<char> {
    match v {
        DumpValue::Dword(n) => "DWORD("@ + decimal(n as nat) + ")"@,
        DumpValue::Text(s) => "\""@ + s@ + "\""@,
        DumpValue::Other(b) => "["@ + bytes_join(b@) + "]"@,
    }
}

pub open spec fn value_line(indent: Seq<char>, v: NamedValue) -> Seq<char> {
    indent + v.name@ + " = "@ + value_text(v.value)
}

/// One line per value, in order.
pub open spec fn key_lines(values: Seq<NamedValue>, indent: Seq<char>) -> Seq<Seq<char>> {
    Seq::new(values.len(), |i: int| value_line(indent, values[i]))
}

/// For each subkey in order, a `  [<name>]` line followed by its values, indented by four.
pub open spec fn subkey_lines(subs: Seq<SubkeySnapshot>) -> Seq<Seq<char>>
    decreases subs.len(),
{
    if subs.len() == 0 {
        Seq::empty()
    } else {
        subkey_lines(subs.drop_last()) + seq!["  ["@ + subs.last().name@ + "]"@] + key_lines(
            subs.last().values@,
            "    "@,
        )
    }
}

/// The full rendering: a single notice when the policy key is absent; otherwise the key's
/// path, a blank line, its values, then its subkeys.
pub open spec fn dump_model(root: Option<KeySnapshot>) -> Seq<Seq<char>> {
    match root {
        None => seq![NO_POLICIES@],
        Some(k) => seq![POLICY_KEY_PATH@, Seq::empty()] + key_lines(k.values@, Seq::empty())
            + subkey_lines(k.subkeys@),
    }
}

fn push_line(out: &mut Vec<String>, line: String)
    ensures
        names_view(final(out)@) == names_view(old(out)@).push(line@),
{
    let ghost before = out@;
    out.push(line);
    proof {
        assert(names_view(out@) =~= names_view(before).push(line@));
    }
}

fn push_value_text(out: &mut String, v: &DumpValue)
    ensures
        final(out)@ == old(out)@ + value_text(*v),
{
    let ghost start = out@;
    match v {
        DumpValue::Dword(n) => {
            out.append("DWORD(");
            push_decimal(out, *n as u64);
            out.append(")");
        },
        DumpValue::Text(s) => {
            out.append("\"");
            out.append(s.as_str());
            out.append("\"");
        },
        DumpValue::Other(b) => {
            out.append("[");
            let ghost open = out@;
            let mut i: usize = 0;
            while i < b.len()
                invariant
                    i <= b.len(),
                    out@ == open + bytes_join(b@.take(i as int)),
                decreases b.len() - i,
            {
                proof {
                    assert(b@.take(i + 1).drop_last() =~= b@.take(i as int));
                    assert(b@.take(i + 1).last() == b@[i as int]);
                }
                if i > 0 {
                    out.append(", ");
                } else {
                    proof {
                        assert(b@.take(i as int).len() == 0);
                    }
                }
                push_decimal(out, b[i] as u64);
                proof {
                    assert(out@ =~= open + bytes_join(b@.take(i + 1)));
                }
                i = i + 1;
            }
            proof {
                assert(b@.take(i as int) =~= b@);
            }
            out.append("]");
        },
    }
    proof {
        assert(out@ =~= start + value_text(*v));
    }
}

/// One line per value of a key, each preceded by `indent`.
pub fn dump_key(values: &Vec<NamedValue>, indent: &str) -> (r: Vec<String>)
    ensures
        names_view(r@) == key_lines(values@, indent@),
{
    let mut out: Vec<String> = Vec::new();
    let mut i: usize = 0;
    while i < values.len()
        invariant
            i <= values.len(),
            names_view(out@) == key_lines(values@.take(i as int), indent@),
        decreases values.len() - i,
    {
        let v = &values[i];
        let mut line = indent.to_owned();
        line.append(v.name.as_str());
        line.append(" = ");
        push_value_text(&mut line, &v.value);
        proof {
            assert(line@ =~= value_line(indent@, values@[i as int]));
        }
        let ghost before = names_view(out@);
        push_line(&mut out, line);
        proof {
            assert(key_lines(values@.take(i + 1), indent@) =~= before.push(
                value_line(indent@, values@[i as int]),
            ));
        }
        i = i + 1;
    }
    proof {
        assert(values@.take(i as int) =~= values@);
    }
    out
}

fn append_lines(out: &mut Vec<String>, lines: &Vec<String>)
    ensures
        names_view(final(out)@) == names_view(old(out)@) + names_view(lines@),
{
    let ghost start = names_view(out@);
    let mut i: usize = 0;
    proof {
        assert(names_view(out@) =~= start + names_view(lines@.take(0)));
    }
    while i < lines.len()
        invariant
            i <= lines.len(),
            names_view(out@) == start + names_view(lines@.take(i as int)),
        decreases lines.len() - i,
    {
        let line = lines[i].clone();
        proof {
            assert(names_view(lines@.take(i + 1)) =~= names_view(lines@.take(i as int)).push(
                line@,
            ));
        }
        push_line(out, line);
        proof {
            assert(names_view(out@) =~= start + names_view(lines@.take(i + 1)));
        }
        i = i + 1;
    }
    proof {
        assert(lines@.take(i as int) =~= lines@);
    }
}

/// The text lines that show what the policy key holds.
pub fn dump(root: &Option<KeySnapshot>) -> (r: Vec<String>)
    ensures
        names_view(r@) == dump_model(*root),
        root.is_none() ==> names_view(r@) == seq![NO_POLICIES@],
{
    let mut out: Vec<String> = Vec::new();
    match root {
        None => {
            push_line(&mut out, NO_POLICIES.to_owned());
            proof {
                assert(names_view(out@) =~= seq![NO_POLICIES@]);
            }
        },
        Some(k) => {
            push_line(&mut out, POLICY_KEY_PATH.to_owned());
            push_line(&mut out, String::new());
            append_lines(&mut out, &dump_key(&k.values, ""));
            proof {
                reveal_strlit("");
                assert(""@ =~= Seq::<char>::empty());
                assert(names_view(out@) =~= seq![POLICY_KEY_PATH@, Seq::empty()] + key_lines(
                    k.values@,
                    Seq::empty(),
                ));
            }
            let ghost head = names_view(out@);
            let mut i: usize = 0;
            while i < k.subkeys.len()
                invariant
                    i <= k.subkeys.len(),
                    names_view(out@) == head + subkey_lines(k.subkeys@.take(i as int)),
                decreases k.subkeys.len() - i,
            {
                let sub = &k.subkeys[i];
                let mut title = "  [".to_owned();
                title.append(sub.name.as_str());
                title.append("]");
                let ghost before = names_view(out@);
                push_line(&mut out, title);
                append_lines(&mut out, &dump_key(&sub.values, "    "));
                proof {
                    let s = k.subkeys@.take(i + 1);
                    assert(s.drop_last() =~= k.subkeys@.take(i as int));
                    assert(s.last() == k.subkeys@[i as int]);
                    assert(names_view(out@) =~= head + subkey_lines(s));
                }
                i = i + 1;
            }
            proof {
                assert(k.subkeys@.take(i as int) =~= k.subkeys@);
            }
        },
    }
    out
}

} // verus!
