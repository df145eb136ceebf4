//! Field values of the descriptor document: quoted strings with escapes,
//! booleans, and lists of strings. Rendering and scanning are defined side
//! by side, with scanning proved to invert rendering.

use vstd::prelude::*;

verus! {

/// Characters that a quoted string escapes with a backslash.
pub open spec fn needs_escape(c: char) -> bool {
    c == '"' || c == '\\'
}

/// The body of a quoted string: every quote and backslash of `s` prefixed
/// with a backslash.
pub open spec fn spec_escape(s: Seq<char>) -> Seq<char>
    decreases s.len(),
{
    if s.len() == 0 {
        Seq::empty()
    } else {
        let head = if needs_escape(s[0]) {
            seq!['\\', s[0]]
        } else {
            seq![s[0]]
        };
        head + spec_escape(s.drop_first())
    }
}

/// Escaping distributes over appending one character.
pub proof fn lemma_escape_snoc(s: Seq<char>, c: char)
    ensures
        spec_escape(s.push(c)) == spec_escape(s) + (if needs_escape(c) {
            seq!['\\', c]
        } else {
            seq![c]
        }),
    decreases s.len(),
{
    let tail = if needs_escape(c) {
        seq!['\\', c]
    } else {
        seq![c]
    };
    if s.len() == 0 {
        assert(s.push(c) =~= seq![c]);
        assert(seq![c][0] == c);
        if needs_escape(c) {
            assert(spec_escape(seq![c]) =~= seq!['\\', c] + spec_escape(seq![c].drop_first()));
            assert(seq![c].drop_first() =~= Seq::<char>::empty());
            assert(spec_escape(s.push(c)) =~= spec_escape(s) + tail);
        } else {
            assert(spec_escape(seq![c]) =~= seq![c] + spec_escape(seq![c].drop_first()));
            assert(seq![c].drop_first() =~= Seq::<char>::empty());
            assert(spec_escape(s.push(c)) =~= spec_escape(s) + tail);
        }
    } else {
        assert(s.push(c)[0] == s[0]);
        assert(s.push(c).drop_first() =~= s.drop_first().push(c));
        lemma_escape_snoc(s.drop_first(), c);
        assert(spec_escape(s.push(c)) =~= spec_escape(s) + tail);
    }
}

/// Escaping never introduces a character the input did not hold, beyond the
/// backslash; in particular it introduces no line break.
pub proof fn lemma_escape_no_newline(s: Seq<char>)
    requires
        forall|i: int| 0 <= i < s.len() ==> s[i] != '\n',
    ensures
        forall|i: int| 0 <= i < spec_escape(s).len() ==> spec_escape(s)[i] != '\n',
    decreases s.len(),
{
    if s.len() > 0 {
        lemma_escape_no_newline(s.drop_first());
        let head = if needs_escape(s[0]) {
            seq!['\\', s[0]]
        } else {
            seq![s[0]]
        };
        let rest = spec_escape(s.drop_first());
        assert(spec_escape(s) == head + rest);
        assert forall|i: int| 0 <= i < spec_escape(s).len() implies spec_escape(s)[i] != '\n' by {
            if i < head.len() {
                assert(spec_escape(s)[i] == head[i]);
            } else {
                assert(spec_escape(s)[i] == rest[i - head.len()]);
            }
        }
    }
}

/// Scans the body of a quoted string: the content up to the first unescaped
/// closing quote, with the count of characters consumed, closing quote
/// included. `None` when the body is malformed or never closed.
pub open spec fn spec_scan_string(s: Seq<char>) -> Option<(Seq<char>, int)>
    decreases s.len(),
{
    if s.len() == 0 {
        None
    } else if s[0] == '"' {
        Some((Seq::empty(), 1))
    } else if s[0] == '\\' {
        if s.len() >= 2 && needs_escape(s[1]) {
            match spec_scan_string(s.skip(2)) {
                Some(p) => Some((seq![s[1]] + p.0, p.1 + 2)),
                None => None,
            }
        } else {
            None
        }
    } else {
        match spec_scan_string(s.drop_first()) {
            Some(p) => Some((seq![s[0]] + p.0, p.1 + 1)),
            None => None,
        }
    }
}

/// A successful scan consumes between one character and the whole input.
pub proof fn lemma_scan_string_bounds(s: Seq<char>)
    ensures
        spec_scan_string(s) is Some ==> 1 <= spec_scan_string(s)->Some_0.1 <= s.len(),
    decreases s.len(),
{
    if s.len() > 0 {
        if s.len() >= 2 {
            lemma_scan_string_bounds(s.skip(2));
        }
        lemma_scan_string_bounds(s.drop_first());
        assert(s.drop_first() =~= s.skip(1));
    }
}

/// Scanning inverts escaping: an escaped body, a closing quote and any rest
/// scans back to the body, consuming through the quote.
pub proof fn lemma_scan_escape(content: Seq<char>, rest: Seq<char>)
    ensures
        spec_scan_string(spec_escape(content) + seq!['"'] + rest) == Some(
            (content, spec_escape(content).len() as int + 1),
        ),
    decreases content.len(),
{
    let s = spec_escape(content) + seq!['"'] + rest;
    if content.len() == 0 {
        assert(s[0] == '"');
    } else {
        let c = content[0];
        lemma_scan_escape(content.drop_first(), rest);
        if needs_escape(c) {
            assert(s[0] == '\\');
            assert(s[1] == c);
            assert(s.len() >= 2);
            assert(s.skip(2) =~= spec_escape(content.drop_first()) + seq!['"'] + rest);
            assert(seq![c] + content.drop_first() =~= content);
        } else {
            assert(s[0] == c);
            assert(c != '"' && c != '\\');
            assert(s.drop_first() =~= spec_escape(content.drop_first()) + seq!['"'] + rest);
            assert(seq![c] + content.drop_first() =~= content);
        }
    }
}

/// A field value of the descriptor document.
pub enum FieldValue {
    /// A quoted string.
    Str(String),
    /// A bare `true` or `false`.
    Flag(bool),
    /// A bracketed list of quoted strings.
    List(Vec<String>),
}

/// Mathematical model of a field value.
#[verifier::ext_equal]
pub ghost enum ValueModel {
    VStr(Seq<char>),
    VFlag(bool),
    VList(Seq<Seq<char>>),
}

impl View for FieldValue {
    type V = ValueModel;

    open spec fn view(&self) -> ValueModel {
        match self {
            FieldValue::Str(s) => ValueModel::VStr(s@),
            FieldValue::Flag(b) => ValueModel::VFlag(*b),
            FieldValue::List(v) => ValueModel::VList(v.deep_view()),
        }
    }
}

/// The rendering of the elements of a non-empty list, from the first
/// element through the closing bracket.
pub open spec fn spec_render_items(items: Seq<Seq<char>>) -> Seq<char>
    decreases items.len(),
{
    if items.len() == 0 {
        seq![']']
    } else {
        let head = seq!['"'] + spec_escape(items[0]) + seq!['"'];
        if items.len() == 1 {
            head + seq![']']
        } else {
            head + seq![',', ' '] + spec_render_items(items.drop_first())
        }
    }
}

/// The rendering of a field value.
pub open spec fn spec_render_value(v: ValueModel) -> Seq<char> {
    match v {
        ValueModel::VStr(s) => seq!['"'] + spec_escape(s) + seq!['"'],
        ValueModel::VFlag(b) => if b {
            "true"@
        } else {
            "false"@
        },
        ValueModel::VList(items) => if items.len() == 0 {
            "[]"@
        } else {
            seq!['['] + spec_render_items(items)
        },
    }
}

/// Scans the elements of a non-empty list: quoted strings separated by a
/// comma and a space, closed by a bracket. Yields the elements and the
/// count of characters consumed, bracket included.
pub open spec fn spec_scan_list(s: Seq<char>) -> Option<(Seq<Seq<char>>, int)>
    decreases s.len(),
    via spec_scan_list_decreases
{
    if s.len() >= 1 && s[0] == '"' {
        match spec_scan_string(s.drop_first()) {
            Some(p) => {
                let after = 1 + p.1;
                if after < s.len() && s[after] == ']' {
                    Some((seq![p.0], after + 1))
                } else if after + 1 < s.len() && s[after] == ',' && s[after + 1] == ' ' {
                    match spec_scan_list(s.skip(after + 2)) {
                        Some(q) => Some((seq![p.0] + q.0, after + 2 + q.1)),
                        None => None,
                    }
                } else {
                    None
                }
            },
            None => None,
        }
    } else {
        None
    }
}

#[via_fn]
proof fn spec_scan_list_decreases(s: Seq<char>) {
    if s.len() >= 1 && s[0] == '"' {
        lemma_scan_string_bounds(s.drop_first());
    }
}

/// Scanning inverts rendering for the elements of a non-empty list.
pub proof fn lemma_scan_items(items: Seq<Seq<char>>)
    requires
        items.len() >= 1,
    ensures
        spec_scan_list(spec_render_items(items)) == Some(
            (items, spec_render_items(items).len() as int),
        ),
    decreases items.len(),
{
    let s = spec_render_items(items);
    let head = seq!['"'] + spec_escape(items[0]) + seq!['"'];
    let e = spec_escape(items[0]);
    assert(s[0] == '"');
    if items.len() == 1 {
        assert(s =~= seq!['"'] + (e + seq!['"'] + seq![']']));
        assert(s.drop_first() =~= e + seq!['"'] + seq![']']);
        lemma_scan_escape(items[0], seq![']']);
        let after: int = 1 + e.len() as int + 1;
        assert(s[after] == ']');
        assert(after + 1 == s.len());
        assert(seq![items[0]] =~= items);
    } else {
        let tail = spec_render_items(items.drop_first());
        assert(s =~= seq!['"'] + (e + seq!['"'] + (seq![',', ' '] + tail)));
        assert(s.drop_first() =~= e + seq!['"'] + (seq![',', ' '] + tail));
        lemma_scan_escape(items[0], seq![',', ' '] + tail);
        let after: int = 1 + e.len() as int + 1;
        assert(s[after] == ',');
        assert(s[after + 1] == ' ');
        assert(after != s.len() - 1 ==> s[after] != ']');
        lemma_scan_items(items.drop_first());
        assert(s.skip(after + 2) =~= tail);
        assert(seq![items[0]] + items.drop_first() =~= items);
        assert(after + 2 + tail.len() == s.len());
    }
}

/// Parses a whole text as one field value: a boolean word, a quoted
/// string, or a list; `None` when nothing of the kind consumes it exactly.
pub open spec fn spec_parse_value(v: Seq<char>) -> Option<ValueModel> {
    if v == "true"@ {
        Some(ValueModel::VFlag(true))
    } else if v == "false"@ {
        Some(ValueModel::VFlag(false))
    } else if v.len() >= 1 && v[0] == '"' {
        match spec_scan_string(v.drop_first()) {
            Some(p) => if 1 + p.1 == v.len() {
                Some(ValueModel::VStr(p.0))
            } else {
                None
            },
            None => None,
        }
    } else if v == "[]"@ {
        Some(ValueModel::VList(seq![]))
    } else if v.len() >= 1 && v[0] == '[' {
        match spec_scan_list(v.drop_first()) {
            Some(p) => if 1 + p.1 == v.len() {
                Some(ValueModel::VList(p.0))
            } else {
                None
            },
            None => None,
        }
    } else {
        None
    }
}

/// Parsing inverts rendering for every field value.
pub proof fn lemma_parse_render_value(v: ValueModel)
    ensures
        spec_parse_value(spec_render_value(v)) == Some(v),
{
    reveal_strlit("true");
    reveal_strlit("false");
    reveal_strlit("[]");
    let s = spec_render_value(v);
    match v {
        ValueModel::VStr(content) => {
            assert(s[0] == '"');
            assert(s != "true"@ && s != "false"@);
            assert(s.drop_first() =~= spec_escape(content) + seq!['"'] + Seq::<char>::empty());
            lemma_scan_escape(content, Seq::empty());
            assert(spec_parse_value(s) == Some(ValueModel::VStr(content)));
            assert(ValueModel::VStr(content) =~= v);
        },
        ValueModel::VFlag(b) => {
            if b {
                assert(s == "true"@);
            } else {
                assert(s[0] == 'f');
                assert("true"@[0] == 't');
                assert(s != "true"@);
                assert(s == "false"@);
            }
        },
        ValueModel::VList(items) => {
            if items.len() == 0 {
                assert(s == "[]"@);
                assert(s[0] == '[');
                assert(s != "true"@ && s != "false"@);
            } else {
                assert(s[0] == '[');
                assert(s != "true"@ && s != "false"@);
                lemma_scan_items(items);
                assert(s.drop_first() =~= spec_render_items(items));
                assert(spec_render_items(items).len() >= 3);
                assert(s.len() != 2);
                assert(s != "[]"@);
                assert(ValueModel::VList(items) =~= v);
            }
        },
    }
}

} // verus!
