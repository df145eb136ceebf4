//! The descriptor codec.
//!
//! A descriptor is persisted as a line-oriented key/value document: the
//! root table holds the target path, the base arguments and the launch
//! flags; each `[[env]]` section holds one environment action. Decoding is
//! total — optional fields take their stated defaults, while a missing
//! target, an unnamed action or an unknown action kind fail with a
//! descriptive error. Decoding is proved to invert encoding.

use vstd::prelude::*;
use crate::descriptor::{ActionModel, ConfigModel, ShimConfig, ShimConfigEnvAction,
    ShimConfigEnvActionItem, wf_action, wf_config};
use crate::text::{is_word_char, lemma_split_join, lemma_word_end_unique, push_char, split_char,
    spec_join_terminated, spec_split, str_eq, word_char, word_end};
use crate::value::{lemma_escape_no_newline, lemma_escape_snoc, lemma_parse_render_value,
    spec_escape, spec_parse_value, spec_render_items, spec_render_value, spec_scan_list,
    spec_scan_string, FieldValue, ValueModel};
use vstd::string::{StrSliceExecFns, StringExecFns};

verus! {

/// One line of the document, as the parser reads it.
#[verifier::ext_equal]
pub ghost enum LineModel {
    /// An empty line; skipped.
    Blank,
    /// The `[[env]]` header that opens one environment action.
    EnvHeader,
    /// A `key = value` pair.
    Pair(Seq<char>, ValueModel),
    /// Anything else.
    Bad,
}

/// The rendering of a `key = value` line.
pub open spec fn spec_render_pair(key: Seq<char>, v: ValueModel) -> Seq<char> {
    key + " = "@ + spec_render_value(v)
}

/// Parses one line: empty, the environment header, or a word key followed
/// by ` = ` and a field value that consumes the rest exactly.
pub open spec fn spec_parse_line(s: Seq<char>) -> LineModel {
    if s.len() == 0 {
        LineModel::Blank
    } else if s == "[[env]]"@ {
        LineModel::EnvHeader
    } else {
        let k = word_end(s, 0);
        if k == 0 {
            LineModel::Bad
        } else if k + 3 <= s.len() && s[k] == ' ' && s[k + 1] == '=' && s[k + 2] == ' ' {
            match spec_parse_value(s.subrange(k + 3, s.len() as int)) {
                Some(v) => LineModel::Pair(s.subrange(0, k), v),
                None => LineModel::Bad,
            }
        } else {
            LineModel::Bad
        }
    }
}

/// A usable key: non-empty, made of word characters.
pub open spec fn key_ok(k: Seq<char>) -> bool {
    k.len() > 0 && forall|i: int| 0 <= i < k.len() ==> is_word_char(#[trigger] k[i])
}

/// Parsing inverts rendering for a `key = value` line.
pub proof fn lemma_parse_render_pair(key: Seq<char>, v: ValueModel)
    requires
        key_ok(key),
    ensures
        spec_parse_line(spec_render_pair(key, v)) == LineModel::Pair(key, v),
{
    reveal_strlit(" = ");
    reveal_strlit("[[env]]");
    let s = spec_render_pair(key, v);
    assert(s.len() >= key.len() + 3);
    assert(s[0] == key[0]);
    assert(is_word_char(key[0]));
    if s == "[[env]]"@ {
        assert(s[0] == '[');
        assert(!is_word_char('['));
    }
    assert(s != "[[env]]"@);
    let k = key.len() as int;
    assert forall|t: int| 0 <= t < k implies is_word_char(s[t]) by {
        assert(s[t] == key[t]);
    }
    assert(s[k] == ' ');
    assert(!is_word_char(' '));
    lemma_word_end_unique(s, 0, k);
    assert(s[k + 1] == '=');
    assert(s[k + 2] == ' ');
    assert(s.subrange(0, k) =~= key);
    assert(s.subrange(k + 3, s.len() as int) =~= spec_render_value(v));
    lemma_parse_render_value(v);
}

/// The environment header line parses to `EnvHeader`.
pub proof fn lemma_parse_env_header()
    ensures
        spec_parse_line("[[env]]"@) == LineModel::EnvHeader,
{
    reveal_strlit("[[env]]");
}

/// A line free of line breaks.
pub open spec fn line_clean(s: Seq<char>) -> bool {
    forall|i: int| 0 <= i < s.len() ==> s[i] != '\n'
}

/// Cleanliness is preserved by concatenation.
proof fn lemma_concat_clean(a: Seq<char>, b: Seq<char>)
    requires
        line_clean(a),
        line_clean(b),
    ensures
        line_clean(a + b),
{
    assert forall|i: int| 0 <= i < (a + b).len() implies (a + b)[i] != '\n' by {
        if i < a.len() {
            assert((a + b)[i] == a[i]);
        } else {
            assert((a + b)[i] == b[i - a.len()]);
        }
    }
}

/// A field value whose strings are line-sized.
pub open spec fn value_clean(v: ValueModel) -> bool {
    match v {
        ValueModel::VStr(s) => line_clean(s),
        ValueModel::VFlag(_) => true,
        ValueModel::VList(items) => forall|i: int|
            0 <= i < items.len() ==> line_clean(#[trigger] items[i]),
    }
}

/// Rendered list elements hold no line break when the elements do not.
proof fn lemma_render_items_clean(items: Seq<Seq<char>>)
    requires
        forall|i: int| 0 <= i < items.len() ==> line_clean(#[trigger] items[i]),
    ensures
        line_clean(spec_render_items(items)),
    decreases items.len(),
{
    if items.len() == 0 {
        assert(line_clean(seq![']']));
    } else {
        lemma_escape_no_newline(items[0]);
        let head = seq!['"'] + crate::value::spec_escape(items[0]) + seq!['"'];
        lemma_concat_clean(seq!['"'], crate::value::spec_escape(items[0]));
        lemma_concat_clean(seq!['"'] + crate::value::spec_escape(items[0]), seq!['"']);
        if items.len() == 1 {
            lemma_concat_clean(head, seq![']']);
        } else {
            lemma_render_items_clean(items.drop_first());
            lemma_concat_clean(head, seq![',', ' ']);
            lemma_concat_clean(head + seq![',', ' '], spec_render_items(items.drop_first()));
        }
    }
}

/// A rendered value holds no line break when its strings do not.
proof fn lemma_render_value_clean(v: ValueModel)
    requires
        value_clean(v),
    ensures
        line_clean(spec_render_value(v)),
{
    reveal_strlit("true");
    reveal_strlit("false");
    reveal_strlit("[]");
    match v {
        ValueModel::VStr(s) => {
            lemma_escape_no_newline(s);
            lemma_concat_clean(seq!['"'], crate::value::spec_escape(s));
            lemma_concat_clean(seq!['"'] + crate::value::spec_escape(s), seq!['"']);
        },
        ValueModel::VFlag(_) => {},
        ValueModel::VList(items) => {
            if items.len() > 0 {
                lemma_render_items_clean(items);
                lemma_concat_clean(seq!['['], spec_render_items(items));
            }
        },
    }
}

/// A rendered pair line holds no line break when key and value do not.
proof fn lemma_render_pair_clean(key: Seq<char>, v: ValueModel)
    requires
        line_clean(key),
        value_clean(v),
    ensures
        line_clean(spec_render_pair(key, v)),
{
    reveal_strlit(" = ");
    lemma_render_value_clean(v);
    lemma_concat_clean(key, " = "@);
    lemma_concat_clean(key + " = "@, spec_render_value(v));
}

/// Why a descriptor document is rejected.
#[derive(Clone, Copy, Debug, PartialEq, Eq, Structural)]
pub enum DecodeError {
    /// A line is neither blank, nor a section header, nor a key/value pair.
    Syntax,
    /// The document names no target path.
    MissingPath,
    /// The target path is the empty string.
    EmptyPath,
    /// A known key carries a value of the wrong shape.
    WrongType,
    /// An environment action names no variable.
    MissingVar,
    /// An environment action names the empty variable.
    EmptyVar,
    /// An action kind outside the closed enumeration.
    BadAction,
}

/// The fields read so far for one environment action.
#[verifier::ext_equal]
pub ghost struct ItemState {
    pub var: Option<Seq<char>>,
    pub action: Option<ShimConfigEnvAction>,
    pub value: Option<Seq<char>>,
    pub separator: Option<Seq<char>>,
}

/// The decoder state: the root fields read so far, the finished actions,
/// and the action section still open, if any.
#[verifier::ext_equal]
pub ghost struct DocState {
    pub path: Option<Seq<char>>,
    pub args: Option<Seq<Seq<char>>>,
    pub win: Option<bool>,
    pub hidden: Option<bool>,
    pub wait: Option<bool>,
    pub env_expand_path: Option<bool>,
    pub env_expand_args: Option<bool>,
    pub env: Seq<ActionModel>,
    pub cur: Option<ItemState>,
}

/// The state before any line is read.
pub open spec fn init_state() -> DocState {
    DocState {
        path: None,
        args: None,
        win: None,
        hidden: None,
        wait: None,
        env_expand_path: None,
        env_expand_args: None,
        env: Seq::empty(),
        cur: None,
    }
}

/// An action section with no field read yet.
pub open spec fn empty_item() -> ItemState {
    ItemState { var: None, action: None, value: None, separator: None }
}

/// Closes one action section: the variable is required and non-empty, the
/// other fields take their defaults.
pub open spec fn spec_finish_item(it: ItemState) -> Result<ActionModel, DecodeError> {
    match it.var {
        None => Err(DecodeError::MissingVar),
        Some(var) => if var.len() == 0 {
            Err(DecodeError::EmptyVar)
        } else {
            Ok(
                ActionModel {
                    var,
                    action: match it.action {
                        Some(a) => a,
                        None => ShimConfigEnvAction::SET,
                    },
                    value: match it.value {
                        Some(v) => v,
                        None => Seq::empty(),
                    },
                    separator: match it.separator {
                        Some(v) => v,
                        None => Seq::empty(),
                    },
                },
            )
        },
    }
}

/// Closes the open action section of `st`, if any.
pub open spec fn spec_close_item(st: DocState) -> Result<DocState, DecodeError> {
    match st.cur {
        None => Ok(st),
        Some(it) => match spec_finish_item(it) {
            Ok(a) => Ok(DocState { env: st.env.push(a), cur: None, ..st }),
            Err(e) => Err(e),
        },
    }
}

/// The closed enumeration of action kinds, by their document words.
pub open spec fn spec_action_kind(s: Seq<char>) -> Option<ShimConfigEnvAction> {
    if s == "set"@ {
        Some(ShimConfigEnvAction::SET)
    } else if s == "clear"@ {
        Some(ShimConfigEnvAction::CLEAR)
    } else if s == "append"@ {
        Some(ShimConfigEnvAction::APPEND)
    } else if s == "prepend"@ {
        Some(ShimConfigEnvAction::PREPEND)
    } else {
        None
    }
}

/// The document word of an action kind.
pub open spec fn spec_action_word(a: ShimConfigEnvAction) -> Seq<char> {
    match a {
        ShimConfigEnvAction::SET => "set"@,
        ShimConfigEnvAction::CLEAR => "clear"@,
        ShimConfigEnvAction::APPEND => "append"@,
        ShimConfigEnvAction::PREPEND => "prepend"@,
    }
}

/// One pair line inside an action section: the four known keys demand a
/// string — the action kind one of the four words — and an unknown key is
/// ignored.
pub open spec fn spec_step_item(st: DocState, it: ItemState, k: Seq<char>, v: ValueModel) -> Result<
    DocState,
    DecodeError,
> {
    if k == "var"@ {
        match v {
            ValueModel::VStr(s) => Ok(
                DocState { cur: Some(ItemState { var: Some(s), ..it }), ..st },
            ),
            _ => Err(DecodeError::WrongType),
        }
    } else if k == "action"@ {
        match v {
            ValueModel::VStr(s) => match spec_action_kind(s) {
                Some(a) => Ok(DocState { cur: Some(ItemState { action: Some(a), ..it }), ..st }),
                None => Err(DecodeError::BadAction),
            },
            _ => Err(DecodeError::WrongType),
        }
    } else if k == "value"@ {
        match v {
            ValueModel::VStr(s) => Ok(
                DocState { cur: Some(ItemState { value: Some(s), ..it }), ..st },
            ),
            _ => Err(DecodeError::WrongType),
        }
    } else if k == "separator"@ {
        match v {
            ValueModel::VStr(s) => Ok(
                DocState { cur: Some(ItemState { separator: Some(s), ..it }), ..st },
            ),
            _ => Err(DecodeError::WrongType),
        }
    } else {
        Ok(st)
    }
}

/// One pair line in the root table: each known key demands its shape — the
/// path a string, the arguments a list, the flags booleans — and an
/// unknown key is ignored.
pub open spec fn spec_step_root(st: DocState, k: Seq<char>, v: ValueModel) -> Result<
    DocState,
    DecodeError,
> {
    if k == "path"@ {
        match v {
            ValueModel::VStr(s) => Ok(DocState { path: Some(s), ..st }),
            _ => Err(DecodeError::WrongType),
        }
    } else if k == "args"@ {
        match v {
            ValueModel::VList(items) => Ok(DocState { args: Some(items), ..st }),
            _ => Err(DecodeError::WrongType),
        }
    } else if k == "win"@ {
        match v {
            ValueModel::VFlag(b) => Ok(DocState { win: Some(b), ..st }),
            _ => Err(DecodeError::WrongType),
        }
    } else if k == "hidden"@ {
        match v {
            ValueModel::VFlag(b) => Ok(DocState { hidden: Some(b), ..st }),
            _ => Err(DecodeError::WrongType),
        }
    } else if k == "wait"@ {
        match v {
            ValueModel::VFlag(b) => Ok(DocState { wait: Some(b), ..st }),
            _ => Err(DecodeError::WrongType),
        }
    } else if k == "env_expand_path"@ {
        match v {
            ValueModel::VFlag(b) => Ok(DocState { env_expand_path: Some(b), ..st }),
            _ => Err(DecodeError::WrongType),
        }
    } else if k == "env_expand_args"@ {
        match v {
            ValueModel::VFlag(b) => Ok(DocState { env_expand_args: Some(b), ..st }),
            _ => Err(DecodeError::WrongType),
        }
    } else {
        Ok(st)
    }
}

/// One line applied to the decoder state.
pub open spec fn spec_step(st: DocState, line: LineModel) -> Result<DocState, DecodeError> {
    match line {
        LineModel::Blank => Ok(st),
        LineModel::Bad => Err(DecodeError::Syntax),
        LineModel::EnvHeader => match spec_close_item(st) {
            Ok(st2) => Ok(DocState { cur: Some(empty_item()), ..st2 }),
            Err(e) => Err(e),
        },
        LineModel::Pair(k, v) => match st.cur {
            Some(it) => spec_step_item(st, it, k, v),
            None => spec_step_root(st, k, v),
        },
    }
}

/// The lines of a document folded over the decoder state, stopping at the
/// first error.
pub open spec fn spec_fold_lines(lines: Seq<Seq<char>>, st: DocState) -> Result<
    DocState,
    DecodeError,
>
    decreases lines.len(),
{
    if lines.len() == 0 {
        Ok(st)
    } else {
        match spec_step(st, spec_parse_line(lines[0])) {
            Ok(st2) => spec_fold_lines(lines.drop_first(), st2),
            Err(e) => Err(e),
        }
    }
}

/// Closes the final state: the path is required and non-empty; every
/// other field takes its stated default — no arguments, all flags false,
/// except waiting, whose default is true.
pub open spec fn spec_finish(st: DocState) -> Result<ConfigModel, DecodeError> {
    match spec_close_item(st) {
        Err(e) => Err(e),
        Ok(st2) => match st2.path {
            None => Err(DecodeError::MissingPath),
            Some(p) => if p.len() == 0 {
                Err(DecodeError::EmptyPath)
            } else {
                Ok(
                    ConfigModel {
                        path: p,
                        args: match st2.args {
                            Some(a) => a,
                            None => Seq::empty(),
                        },
                        env: st2.env,
                        win: match st2.win {
                            Some(b) => b,
                            None => false,
                        },
                        hidden: match st2.hidden {
                            Some(b) => b,
                            None => false,
                        },
                        wait: match st2.wait {
                            Some(b) => b,
                            None => true,
                        },
                        env_expand_path: match st2.env_expand_path {
                            Some(b) => b,
                            None => false,
                        },
                        env_expand_args: match st2.env_expand_args {
                            Some(b) => b,
                            None => false,
                        },
                    },
                )
            },
        },
    }
}

/// What a document text decodes to.
pub open spec fn spec_decode(text: Seq<char>) -> Result<ConfigModel, DecodeError> {
    match spec_fold_lines(spec_split(text, '\n'), init_state()) {
        Ok(st) => spec_finish(st),
        Err(e) => Err(e),
    }
}

/// The five lines of one encoded action section.
pub open spec fn spec_item_lines(a: ActionModel) -> Seq<Seq<char>> {
    seq![
        "[[env]]"@,
        spec_render_pair("var"@, ValueModel::VStr(a.var)),
        spec_render_pair("action"@, ValueModel::VStr(spec_action_word(a.action))),
        spec_render_pair("value"@, ValueModel::VStr(a.value)),
        spec_render_pair("separator"@, ValueModel::VStr(a.separator)),
    ]
}

/// The encoded action sections, in order.
pub open spec fn spec_env_lines(envs: Seq<ActionModel>) -> Seq<Seq<char>>
    decreases envs.len(),
{
    if envs.len() == 0 {
        Seq::empty()
    } else {
        spec_item_lines(envs[0]) + spec_env_lines(envs.drop_first())
    }
}

/// The seven lines of the encoded root table.
pub open spec fn spec_root_lines(c: ConfigModel) -> Seq<Seq<char>> {
    seq![
        spec_render_pair("path"@, ValueModel::VStr(c.path)),
        spec_render_pair("args"@, ValueModel::VList(c.args)),
        spec_render_pair("win"@, ValueModel::VFlag(c.win)),
        spec_render_pair("hidden"@, ValueModel::VFlag(c.hidden)),
        spec_render_pair("wait"@, ValueModel::VFlag(c.wait)),
        spec_render_pair("env_expand_path"@, ValueModel::VFlag(c.env_expand_path)),
        spec_render_pair("env_expand_args"@, ValueModel::VFlag(c.env_expand_args)),
    ]
}

/// All lines of the encoded document.
pub open spec fn spec_encode_lines(c: ConfigModel) -> Seq<Seq<char>> {
    spec_root_lines(c) + spec_env_lines(c.env)
}

/// The encoded document: every line terminated by one line break.
pub open spec fn spec_encode(c: ConfigModel) -> Seq<char> {
    spec_join_terminated(spec_encode_lines(c), '\n')
}

/// Folding distributes over concatenation of line blocks.
proof fn lemma_fold_append(a: Seq<Seq<char>>, b: Seq<Seq<char>>, st: DocState)
    ensures
        spec_fold_lines(a + b, st) == (match spec_fold_lines(a, st) {
            Ok(st2) => spec_fold_lines(b, st2),
            Err(e) => Err(e),
        }),
    decreases a.len(),
{
    if a.len() == 0 {
        assert(a + b =~= b);
    } else {
        assert((a + b)[0] == a[0]);
        assert((a + b).drop_first() =~= a.drop_first() + b);
        match spec_step(st, spec_parse_line(a[0])) {
            Ok(st2) => {
                lemma_fold_append(a.drop_first(), b, st2);
            },
            Err(_) => {},
        }
    }
}

/// The root keys are usable and pairwise distinct.
proof fn lemma_root_keys()
    ensures
        key_ok("path"@),
        key_ok("args"@),
        key_ok("win"@),
        key_ok("hidden"@),
        key_ok("wait"@),
        key_ok("env_expand_path"@),
        key_ok("env_expand_args"@),
        "args"@ != "path"@,
        "win"@ != "path"@,
        "win"@ != "args"@,
        "hidden"@ != "path"@,
        "hidden"@ != "args"@,
        "hidden"@ != "win"@,
        "wait"@ != "path"@,
        "wait"@ != "args"@,
        "wait"@ != "win"@,
        "wait"@ != "hidden"@,
        "env_expand_path"@ != "path"@,
        "env_expand_path"@ != "args"@,
        "env_expand_path"@ != "win"@,
        "env_expand_path"@ != "hidden"@,
        "env_expand_path"@ != "wait"@,
        "env_expand_args"@ != "path"@,
        "env_expand_args"@ != "args"@,
        "env_expand_args"@ != "win"@,
        "env_expand_args"@ != "hidden"@,
        "env_expand_args"@ != "wait"@,
        "env_expand_args"@ != "env_expand_path"@,
{
    reveal_strlit("path");
    reveal_strlit("args");
    reveal_strlit("win");
    reveal_strlit("hidden");
    reveal_strlit("wait");
    reveal_strlit("env_expand_path");
    reveal_strlit("env_expand_args");
    assert("args"@[0] != "path"@[0]);
    assert("wait"@[0] != "path"@[0]);
    assert("wait"@[0] != "args"@[0]);
    assert("env_expand_args"@[11] != "env_expand_path"@[11]);
}

/// The item keys are usable and pairwise distinct.
proof fn lemma_item_keys()
    ensures
        key_ok("var"@),
        key_ok("action"@),
        key_ok("value"@),
        key_ok("separator"@),
        "action"@ != "var"@,
        "value"@ != "var"@,
        "value"@ != "action"@,
        "separator"@ != "var"@,
        "separator"@ != "action"@,
        "separator"@ != "value"@,
{
    reveal_strlit("var");
    reveal_strlit("action");
    reveal_strlit("value");
    reveal_strlit("separator");
}

/// The decoder state after the root lines of `c`.
pub open spec fn root_state(c: ConfigModel) -> DocState {
    DocState {
        path: Some(c.path),
        args: Some(c.args),
        win: Some(c.win),
        hidden: Some(c.hidden),
        wait: Some(c.wait),
        env_expand_path: Some(c.env_expand_path),
        env_expand_args: Some(c.env_expand_args),
        env: Seq::empty(),
        cur: None,
    }
}

/// Folding the encoded root lines reads back every root field.
#[verifier::rlimit(60)]
proof fn lemma_fold_root(c: ConfigModel)
    ensures
        spec_fold_lines(spec_root_lines(c), init_state()) == Ok::<DocState, DecodeError>(
            root_state(c),
        ),
{
    lemma_root_keys();
    lemma_parse_render_pair("path"@, ValueModel::VStr(c.path));
    lemma_parse_render_pair("args"@, ValueModel::VList(c.args));
    lemma_parse_render_pair("win"@, ValueModel::VFlag(c.win));
    lemma_parse_render_pair("hidden"@, ValueModel::VFlag(c.hidden));
    lemma_parse_render_pair("wait"@, ValueModel::VFlag(c.wait));
    lemma_parse_render_pair("env_expand_path"@, ValueModel::VFlag(c.env_expand_path));
    lemma_parse_render_pair("env_expand_args"@, ValueModel::VFlag(c.env_expand_args));
    let l = spec_root_lines(c);
    let s0 = init_state();
    let s1 = DocState { path: Some(c.path), ..s0 };
    let s2 = DocState { args: Some(c.args), ..s1 };
    let s3 = DocState { win: Some(c.win), ..s2 };
    let s4 = DocState { hidden: Some(c.hidden), ..s3 };
    let s5 = DocState { wait: Some(c.wait), ..s4 };
    let s6 = DocState { env_expand_path: Some(c.env_expand_path), ..s5 };
    let s7 = DocState { env_expand_args: Some(c.env_expand_args), ..s6 };
    let l1 = l.drop_first();
    let l2 = l1.drop_first();
    let l3 = l2.drop_first();
    let l4 = l3.drop_first();
    let l5 = l4.drop_first();
    let l6 = l5.drop_first();
    let l7 = l6.drop_first();
    assert(spec_step(s0, spec_parse_line(l[0])) == Ok::<DocState, DecodeError>(s1));
    assert(l1[0] == l[1] && l2[0] == l[2] && l3[0] == l[3] && l4[0] == l[4] && l5[0] == l[5]
        && l6[0] == l[6]);
    assert(spec_step(s1, spec_parse_line(l[1])) == Ok::<DocState, DecodeError>(s2));
    assert(spec_step(s2, spec_parse_line(l[2])) == Ok::<DocState, DecodeError>(s3));
    assert(spec_step(s3, spec_parse_line(l[3])) == Ok::<DocState, DecodeError>(s4));
    assert(spec_step(s4, spec_parse_line(l[4])) == Ok::<DocState, DecodeError>(s5));
    assert(spec_step(s5, spec_parse_line(l[5])) == Ok::<DocState, DecodeError>(s6));
    assert(spec_step(s6, spec_parse_line(l[6])) == Ok::<DocState, DecodeError>(s7));
    assert(l7.len() == 0);
    assert(spec_fold_lines(l, s0) == spec_fold_lines(l1, s1));
    assert(spec_fold_lines(l1, s1) == spec_fold_lines(l2, s2));
    assert(spec_fold_lines(l2, s2) == spec_fold_lines(l3, s3));
    assert(spec_fold_lines(l3, s3) == spec_fold_lines(l4, s4));
    assert(spec_fold_lines(l4, s4) == spec_fold_lines(l5, s5));
    assert(spec_fold_lines(l5, s5) == spec_fold_lines(l6, s6));
    assert(spec_fold_lines(l6, s6) == spec_fold_lines(l7, s7));
    assert(s7 =~= root_state(c));
}

/// The fields that one encoded action section reads back.
pub open spec fn item_of(a: ActionModel) -> ItemState {
    ItemState {
        var: Some(a.var),
        action: Some(a.action),
        value: Some(a.value),
        separator: Some(a.separator),
    }
}

/// The action words belong to the closed enumeration.
proof fn lemma_action_word_kind(a: ShimConfigEnvAction)
    ensures
        spec_action_kind(spec_action_word(a)) == Some(a),
{
    reveal_strlit("set");
    reveal_strlit("clear");
    reveal_strlit("append");
    reveal_strlit("prepend");
    match a {
        ShimConfigEnvAction::SET => {
            assert(spec_action_kind("set"@) == Some(ShimConfigEnvAction::SET));
        },
        ShimConfigEnvAction::CLEAR => {
            assert("clear"@.len() != "set"@.len());
            assert(spec_action_kind("clear"@) == Some(ShimConfigEnvAction::CLEAR));
        },
        ShimConfigEnvAction::APPEND => {
            assert("append"@.len() != "set"@.len());
            assert("append"@.len() != "clear"@.len());
            assert(spec_action_kind("append"@) == Some(ShimConfigEnvAction::APPEND));
        },
        ShimConfigEnvAction::PREPEND => {
            assert("prepend"@.len() != "set"@.len());
            assert("prepend"@.len() != "clear"@.len());
            assert("prepend"@.len() != "append"@.len());
            assert(spec_action_kind("prepend"@) == Some(ShimConfigEnvAction::PREPEND));
        },
    }
}

/// Closing a fully-read action section yields back its action.
proof fn lemma_finish_item_of(a: ActionModel)
    requires
        wf_action(a),
    ensures
        spec_finish_item(item_of(a)) == Ok::<ActionModel, DecodeError>(a),
{
    assert(spec_finish_item(item_of(a))->Ok_0 =~= a);
}

/// Folding one encoded action section closes the open section and opens
/// one holding exactly the encoded fields.
proof fn lemma_fold_item(a: ActionModel, st: DocState)
    ensures
        spec_fold_lines(spec_item_lines(a), st) == (match spec_close_item(st) {
            Ok(st2) => Ok(DocState { cur: Some(item_of(a)), ..st2 }),
            Err(e) => Err(e),
        }),
{
    lemma_item_keys();
    lemma_parse_env_header();
    lemma_action_word_kind(a.action);
    lemma_parse_render_pair("var"@, ValueModel::VStr(a.var));
    lemma_parse_render_pair("action"@, ValueModel::VStr(spec_action_word(a.action)));
    lemma_parse_render_pair("value"@, ValueModel::VStr(a.value));
    lemma_parse_render_pair("separator"@, ValueModel::VStr(a.separator));
    let l = spec_item_lines(a);
    let l1 = l.drop_first();
    let l2 = l1.drop_first();
    let l3 = l2.drop_first();
    let l4 = l3.drop_first();
    let l5 = l4.drop_first();
    assert(l1[0] == l[1] && l2[0] == l[2] && l3[0] == l[3] && l4[0] == l[4]);
    assert(l5.len() == 0);
    match spec_close_item(st) {
        Ok(st2) => {
            let t1 = DocState { cur: Some(empty_item()), ..st2 };
            let t2 = DocState { cur: Some(ItemState { var: Some(a.var), ..empty_item() }), ..t1 };
            let i2 = ItemState { var: Some(a.var), ..empty_item() };
            let i3 = ItemState { action: Some(a.action), ..i2 };
            let i4 = ItemState { value: Some(a.value), ..i3 };
            let i5 = ItemState { separator: Some(a.separator), ..i4 };
            let t3 = DocState { cur: Some(i3), ..t2 };
            let t4 = DocState { cur: Some(i4), ..t3 };
            let t5 = DocState { cur: Some(i5), ..t4 };
            assert(spec_step(st, spec_parse_line(l[0])) == Ok::<DocState, DecodeError>(t1));
            assert(spec_step(t1, spec_parse_line(l[1])) == Ok::<DocState, DecodeError>(t2));
            assert(spec_step(t2, spec_parse_line(l[2])) == Ok::<DocState, DecodeError>(t3));
            assert(spec_step(t3, spec_parse_line(l[3])) == Ok::<DocState, DecodeError>(t4));
            assert(spec_step(t4, spec_parse_line(l[4])) == Ok::<DocState, DecodeError>(t5));
            assert(spec_fold_lines(l, st) == spec_fold_lines(l1, t1));
            assert(spec_fold_lines(l1, t1) == spec_fold_lines(l2, t2));
            assert(spec_fold_lines(l2, t2) == spec_fold_lines(l3, t3));
            assert(spec_fold_lines(l3, t3) == spec_fold_lines(l4, t4));
            assert(spec_fold_lines(l4, t4) == spec_fold_lines(l5, t5));
            assert(i5 =~= item_of(a));
            assert(t5 =~= DocState { cur: Some(item_of(a)), ..st2 });
        },
        Err(_) => {
            assert(spec_fold_lines(l, st) == spec_step(st, spec_parse_line(l[0])));
        },
    }
}

/// Folding the encoded action sections: the open section is closed, the
/// sections but the last are read and closed in order, and the last stays
/// open with its fields read.
proof fn lemma_fold_env(envs: Seq<ActionModel>, st: DocState)
    requires
        forall|i: int| 0 <= i < envs.len() ==> wf_action(#[trigger] envs[i]),
    ensures
        spec_fold_lines(spec_env_lines(envs), st) == (if envs.len() == 0 {
            Ok::<DocState, DecodeError>(st)
        } else {
            match spec_close_item(st) {
                Ok(st2) => Ok(
                    DocState {
                        env: st2.env + envs.drop_last(),
                        cur: Some(item_of(envs.last())),
                        ..st2
                    },
                ),
                Err(e) => Err(e),
            }
        }),
    decreases envs.len(),
{
    if envs.len() > 0 {
        let e0 = envs[0];
        let rest = envs.drop_first();
        lemma_fold_append(spec_item_lines(e0), spec_env_lines(rest), st);
        lemma_fold_item(e0, st);
        match spec_close_item(st) {
            Ok(st2) => {
                let st3 = DocState { cur: Some(item_of(e0)), ..st2 };
                assert(forall|i: int| 0 <= i < rest.len() ==> rest[i] == envs[i + 1]);
                assert(forall|i: int| 0 <= i < rest.len() ==> wf_action(#[trigger] rest[i]));
                lemma_fold_env(rest, st3);
                if rest.len() == 0 {
                    assert(envs.drop_last() =~= Seq::<ActionModel>::empty());
                    assert(st2.env + envs.drop_last() =~= st2.env);
                    assert(envs.last() == e0);
                    assert(st3 =~= DocState {
                        env: st2.env + envs.drop_last(),
                        cur: Some(item_of(envs.last())),
                        ..st2
                    });
                } else {
                    lemma_finish_item_of(e0);
                    let st4 = DocState { env: st3.env.push(e0), cur: None, ..st3 };
                    assert(spec_close_item(st3) == Ok::<DocState, DecodeError>(st4));
                    assert(rest.last() == envs.last());
                    assert(st4.env + rest.drop_last() =~= st2.env + envs.drop_last());
                    assert(DocState {
                        env: st4.env + rest.drop_last(),
                        cur: Some(item_of(rest.last())),
                        ..st4
                    } =~= DocState {
                        env: st2.env + envs.drop_last(),
                        cur: Some(item_of(envs.last())),
                        ..st2
                    });
                }
            },
            Err(_) => {},
        }
    }
}

/// Every line of one encoded action section is free of line breaks.
proof fn lemma_item_lines_clean(a: ActionModel)
    requires
        wf_action(a),
    ensures
        forall|i: int, j: int|
            0 <= i < spec_item_lines(a).len() && 0 <= j < spec_item_lines(a)[i].len()
                ==> #[trigger] spec_item_lines(a)[i][j] != '\n',
{
    reveal_strlit("[[env]]");
    reveal_strlit("var");
    reveal_strlit("action");
    reveal_strlit("value");
    reveal_strlit("separator");
    reveal_strlit("set");
    reveal_strlit("clear");
    reveal_strlit("append");
    reveal_strlit("prepend");
    assert(line_clean(spec_action_word(a.action)));
    lemma_render_pair_clean("var"@, ValueModel::VStr(a.var));
    lemma_render_pair_clean("action"@, ValueModel::VStr(spec_action_word(a.action)));
    lemma_render_pair_clean("value"@, ValueModel::VStr(a.value));
    lemma_render_pair_clean("separator"@, ValueModel::VStr(a.separator));
    let l = spec_item_lines(a);
    assert forall|i: int, j: int| 0 <= i < l.len() && 0 <= j < l[i].len() implies #[trigger] l[i][j]
        != '\n' by {
        assert(line_clean(l[0]) && line_clean(l[1]) && line_clean(l[2]) && line_clean(l[3])
            && line_clean(l[4]));
    }
}

/// Every line of the encoded action sections is free of line breaks.
proof fn lemma_env_lines_clean(envs: Seq<ActionModel>)
    requires
        forall|i: int| 0 <= i < envs.len() ==> wf_action(#[trigger] envs[i]),
    ensures
        forall|i: int, j: int|
            0 <= i < spec_env_lines(envs).len() && 0 <= j < spec_env_lines(envs)[i].len()
                ==> #[trigger] spec_env_lines(envs)[i][j] != '\n',
    decreases envs.len(),
{
    if envs.len() > 0 {
        let head = spec_item_lines(envs[0]);
        let rest = envs.drop_first();
        lemma_item_lines_clean(envs[0]);
        assert(forall|i: int| 0 <= i < rest.len() ==> wf_action(#[trigger] rest[i]));
        lemma_env_lines_clean(rest);
        let l = spec_env_lines(envs);
        assert forall|i: int, j: int| 0 <= i < l.len() && 0 <= j < l[i].len() implies #[trigger] l[i][j]
            != '\n' by {
            if i < head.len() {
                assert(l[i] == head[i]);
            } else {
                assert(l[i] == spec_env_lines(rest)[i - head.len()]);
            }
        }
    }
}

/// Every line of the encoded document is free of line breaks.
proof fn lemma_encode_lines_clean(c: ConfigModel)
    requires
        wf_config(c),
    ensures
        forall|i: int, j: int|
            0 <= i < spec_encode_lines(c).len() && 0 <= j < spec_encode_lines(c)[i].len()
                ==> #[trigger] spec_encode_lines(c)[i][j] != '\n',
{
    lemma_root_keys();
    reveal_strlit("path");
    reveal_strlit("args");
    reveal_strlit("win");
    reveal_strlit("hidden");
    reveal_strlit("wait");
    reveal_strlit("env_expand_path");
    reveal_strlit("env_expand_args");
    lemma_render_pair_clean("path"@, ValueModel::VStr(c.path));
    lemma_render_pair_clean("args"@, ValueModel::VList(c.args));
    lemma_render_pair_clean("win"@, ValueModel::VFlag(c.win));
    lemma_render_pair_clean("hidden"@, ValueModel::VFlag(c.hidden));
    lemma_render_pair_clean("wait"@, ValueModel::VFlag(c.wait));
    lemma_render_pair_clean("env_expand_path"@, ValueModel::VFlag(c.env_expand_path));
    lemma_render_pair_clean("env_expand_args"@, ValueModel::VFlag(c.env_expand_args));
    lemma_env_lines_clean(c.env);
    let r = spec_root_lines(c);
    let l = spec_encode_lines(c);
    assert forall|i: int, j: int| 0 <= i < l.len() && 0 <= j < l[i].len() implies #[trigger] l[i][j]
        != '\n' by {
        if i < r.len() {
            assert(l[i] == r[i]);
            assert(line_clean(r[0]) && line_clean(r[1]) && line_clean(r[2]) && line_clean(r[3])
                && line_clean(r[4]) && line_clean(r[5]) && line_clean(r[6]));
        } else {
            assert(l[i] == spec_env_lines(c.env)[i - r.len()]);
        }
    }
}

/// The round trip: decoding an encoded well-formed descriptor yields the
/// descriptor back.
pub proof fn lemma_round_trip(c: ConfigModel)
    requires
        wf_config(c),
    ensures
        spec_decode(spec_encode(c)) == Ok::<ConfigModel, DecodeError>(c),
{
    lemma_encode_lines_clean(c);
    lemma_split_join(spec_encode_lines(c), '\n');
    lemma_fold_append(spec_root_lines(c), spec_env_lines(c.env), init_state());
    lemma_fold_root(c);
    lemma_fold_env(c.env, root_state(c));
    let rs = root_state(c);
    if c.env.len() == 0 {
        assert(spec_fold_lines(spec_encode_lines(c), init_state()) == Ok::<
            DocState,
            DecodeError,
        >(rs));
        assert(spec_finish(rs)->Ok_0 =~= c);
    } else {
        let last = c.env.last();
        assert(wf_action(last));
        let fs = DocState { env: rs.env + c.env.drop_last(), cur: Some(item_of(last)), ..rs };
        assert(spec_fold_lines(spec_encode_lines(c), init_state()) == Ok::<
            DocState,
            DecodeError,
        >(fs));
        lemma_finish_item_of(last);
        let closed = DocState { env: fs.env.push(last), cur: None, ..fs };
        assert(spec_close_item(fs) == Ok::<DocState, DecodeError>(closed));
        assert(closed.env =~= c.env);
        assert(spec_finish(fs)->Ok_0 =~= c);
    }
}

/// Appends `s` to `out` as a quoted, escaped string.
fn append_quoted(out: &mut String, s: &str)
    ensures
        final(out)@ == old(out)@ + seq!['"'] + spec_escape(s@) + seq!['"'],
{
    let len = s.unicode_len();
    push_char(out, '"');
    let ghost base = out@;
    let mut i: usize = 0;
    proof {
        assert(spec_escape(s@.take(0)) =~= Seq::<char>::empty());
        assert(out@ =~= base + spec_escape(s@.take(0)));
    }
    while i < len
        invariant
            len == s@.len(),
            i <= len,
            out@ == base + spec_escape(s@.take(i as int)),
        decreases len - i,
    {
        let c = s.get_char(i);
        proof {
            lemma_escape_snoc(s@.take(i as int), c);
            assert(s@.take(i as int).push(c) =~= s@.take(i as int + 1));
        }
        if c == '"' || c == '\\' {
            push_char(out, '\\');
            push_char(out, c);
            proof {
                assert(out@ =~= base + spec_escape(s@.take(i as int + 1)));
            }
        } else {
            push_char(out, c);
            proof {
                assert(out@ =~= base + spec_escape(s@.take(i as int + 1)));
            }
        }
        i = i + 1;
    }
    push_char(out, '"');
    proof {
        assert(s@.take(len as int) =~= s@);
        assert(out@ =~= old(out)@ + seq!['"'] + spec_escape(s@) + seq!['"']);
    }
}

/// Renders one `key = "string"` line.
fn make_pair_str(key: &str, v: &str) -> (r: String)
    ensures
        r@ == spec_render_pair(key@, ValueModel::VStr(v@)),
{
    let mut out = String::from_str(key);
    out.append(" = ");
    append_quoted(&mut out, v);
    proof {
        assert(out@ =~= spec_render_pair(key@, ValueModel::VStr(v@)));
    }
    out
}

/// Renders one `key = true` or `key = false` line.
fn make_pair_flag(key: &str, b: bool) -> (r: String)
    ensures
        r@ == spec_render_pair(key@, ValueModel::VFlag(b)),
{
    let mut out = String::from_str(key);
    out.append(" = ");
    if b {
        out.append("true");
    } else {
        out.append("false");
    }
    proof {
        assert(out@ =~= spec_render_pair(key@, ValueModel::VFlag(b)));
    }
    out
}

/// Renders one `key = [..]` line.
fn make_pair_list(key: &str, items: &Vec<String>) -> (r: String)
    ensures
        r@ == spec_render_pair(key@, ValueModel::VList(items.deep_view())),
{
    let mut out = String::from_str(key);
    out.append(" = ");
    let n = items.len();
    if n == 0 {
        out.append("[]");
        proof {
            assert(items.deep_view() =~= Seq::<Seq<char>>::empty());
            assert(out@ =~= spec_render_pair(key@, ValueModel::VList(items.deep_view())));
        }
        return out;
    }
    push_char(&mut out, '[');
    let ghost dv = items.deep_view();
    let ghost target = key@ + " = "@ + (seq!['['] + spec_render_items(dv));
    proof {
        assert(dv.skip(0) =~= dv);
        assert(out@ + spec_render_items(dv.skip(0)) =~= target);
    }
    let mut i: usize = 0;
    while i < n
        invariant
            n == items@.len(),
            n == dv.len(),
            dv == items.deep_view(),
            i <= n,
            target == out@ + spec_render_items(dv.skip(i as int)),
        decreases n - i,
    {
        let ghost rest = dv.skip(i as int);
        proof {
            assert(rest[0] == dv[i as int]);
            assert(dv[i as int] == items@[i as int]@);
            assert(rest.drop_first() =~= dv.skip(i as int + 1));
        }
        let it = &items[i];
        append_quoted(&mut out, it.as_str());
        if i + 1 < n {
            push_char(&mut out, ',');
            push_char(&mut out, ' ');
            proof {
                assert(target =~= out@ + spec_render_items(dv.skip(i as int + 1)));
            }
        } else {
            proof {
                assert(dv.skip(i as int + 1) =~= Seq::<Seq<char>>::empty());
                assert(target =~= out@ + spec_render_items(dv.skip(i as int + 1)));
            }
        }
        i = i + 1;
    }
    push_char(&mut out, ']');
    proof {
        assert(dv.skip(n as int) =~= Seq::<Seq<char>>::empty());
        assert(out@ =~= target);
        assert(target =~= spec_render_pair(key@, ValueModel::VList(dv)));
    }
    out
}

/// Joins lines, terminating each with one line break.
fn join_lines(lines: &Vec<String>) -> (r: String)
    ensures
        r@ == spec_join_terminated(lines.deep_view(), '\n'),
{
    let mut out = String::new();
    let n = lines.len();
    let ghost dv = lines.deep_view();
    let ghost target = spec_join_terminated(dv, '\n');
    let mut i: usize = 0;
    proof {
        assert(dv.skip(0) =~= dv);
        assert(out@ + spec_join_terminated(dv.skip(0), '\n') =~= target);
    }
    while i < n
        invariant
            n == lines@.len(),
            n == dv.len(),
            dv == lines.deep_view(),
            i <= n,
            target == out@ + spec_join_terminated(dv.skip(i as int), '\n'),
            target == spec_join_terminated(dv, '\n'),
        decreases n - i,
    {
        let ghost rest = dv.skip(i as int);
        proof {
            assert(rest[0] == dv[i as int]);
            assert(dv[i as int] == lines@[i as int]@);
            assert(rest.drop_first() =~= dv.skip(i as int + 1));
        }
        let l = &lines[i];
        out.append(l.as_str());
        push_char(&mut out, '\n');
        proof {
            assert(target =~= out@ + spec_join_terminated(dv.skip(i as int + 1), '\n'));
        }
        i = i + 1;
    }
    proof {
        assert(dv.skip(n as int) =~= Seq::<Seq<char>>::empty());
        assert(out@ =~= target);
    }
    out
}

/// The document word of an action kind.
fn action_word(a: ShimConfigEnvAction) -> (r: &'static str)
    ensures
        r@ == spec_action_word(a),
{
    match a {
        ShimConfigEnvAction::SET => "set",
        ShimConfigEnvAction::CLEAR => "clear",
        ShimConfigEnvAction::APPEND => "append",
        ShimConfigEnvAction::PREPEND => "prepend",
    }
}

/// Encoded sections distribute over appending one action.
proof fn lemma_env_lines_snoc(envs: Seq<ActionModel>, a: ActionModel)
    ensures
        spec_env_lines(envs.push(a)) == spec_env_lines(envs) + spec_item_lines(a),
    decreases envs.len(),
{
    if envs.len() == 0 {
        assert(envs.push(a)[0] == a);
        assert(envs.push(a).drop_first() =~= Seq::<ActionModel>::empty());
        assert(spec_env_lines(Seq::<ActionModel>::empty()) =~= Seq::<Seq<char>>::empty());
        assert(spec_env_lines(envs.push(a)) =~= spec_env_lines(envs) + spec_item_lines(a));
    } else {
        assert(envs.push(a)[0] == envs[0]);
        assert(envs.push(a).drop_first() =~= envs.drop_first().push(a));
        lemma_env_lines_snoc(envs.drop_first(), a);
        assert(spec_env_lines(envs.push(a)) =~= spec_env_lines(envs) + spec_item_lines(a));
    }
}

/// Encodes a descriptor as its document text.
pub fn encode(c: &ShimConfig) -> (r: String)
    ensures
        r@ == spec_encode(c@),
{
    let mut lines: Vec<String> = Vec::new();
    lines.push(make_pair_str("path", c.path.as_str()));
    lines.push(make_pair_list("args", &c.args));
    lines.push(make_pair_flag("win", c.win));
    lines.push(make_pair_flag("hidden", c.hidden));
    lines.push(make_pair_flag("wait", c.wait));
    lines.push(make_pair_flag("env_expand_path", c.env_expand_path));
    lines.push(make_pair_flag("env_expand_args", c.env_expand_args));
    proof {
        assert(c.args.deep_view() =~= c@.args);
        assert(lines.deep_view() =~= spec_root_lines(c@));
    }
    let n = c.env.len();
    let mut i: usize = 0;
    proof {
        assert(c@.env.take(0) =~= Seq::<ActionModel>::empty());
        assert(spec_root_lines(c@) + spec_env_lines(c@.env.take(0)) =~= spec_root_lines(c@));
    }
    while i < n
        invariant
            n == c.env@.len(),
            i <= n,
            lines.deep_view() == spec_root_lines(c@) + spec_env_lines(c@.env.take(i as int)),
        decreases n - i,
    {
        let item = &c.env[i];
        let ghost a = item@;
        proof {
            assert(c@.env[i as int] == a);
        }
        let h0 = String::from_str("[[env]]");
        let h1 = make_pair_str("var", item.var.as_str());
        let h2 = make_pair_str("action", action_word(item.action));
        let h3 = make_pair_str("value", item.value.as_str());
        let h4 = make_pair_str("separator", item.separator.as_str());
        let ghost v0 = h0@;
        let ghost v1 = h1@;
        let ghost v2 = h2@;
        let ghost v3 = h3@;
        let ghost v4 = h4@;
        let ghost d0 = lines.deep_view();
        lines.push(h0);
        proof {
            assert(lines.deep_view() =~= d0.push(v0));
        }
        let ghost d1 = lines.deep_view();
        lines.push(h1);
        proof {
            assert(lines.deep_view() =~= d1.push(v1));
        }
        let ghost d2 = lines.deep_view();
        lines.push(h2);
        proof {
            assert(lines.deep_view() =~= d2.push(v2));
        }
        let ghost d3 = lines.deep_view();
        lines.push(h3);
        proof {
            assert(lines.deep_view() =~= d3.push(v3));
        }
        let ghost d4 = lines.deep_view();
        lines.push(h4);
        proof {
            assert(lines.deep_view() =~= d4.push(v4));
            assert(lines.deep_view() =~= d0 + spec_item_lines(a));
            lemma_env_lines_snoc(c@.env.take(i as int), a);
            assert(c@.env.take(i as int).push(a) =~= c@.env.take(i as int + 1));
            assert(lines.deep_view() =~= spec_root_lines(c@) + spec_env_lines(
                c@.env.take(i as int + 1),
            ));
        }
        i = i + 1;
    }
    proof {
        assert(c@.env.take(n as int) =~= c@.env);
        assert(lines.deep_view() =~= spec_encode_lines(c@));
    }
    join_lines(&lines)
}

/// Scans a quoted-string body from `start` (just after the opening quote):
/// the content, and the position just after the closing quote.
fn scan_string(s: &str, start: usize) -> (r: Option<(String, usize)>)
    requires
        start <= s@.len(),
    ensures
        match r {
            Some(p) => start < p.1 <= s@.len() && spec_scan_string(s@.skip(start as int)) == Some(
                (p.0@, p.1 - start as int),
            ),
            None => spec_scan_string(s@.skip(start as int)) is None,
        },
{
    let len = s.unicode_len();
    let mut out = String::new();
    let mut i: usize = start;
    proof {
        if spec_scan_string(s@.skip(start as int)) is Some {
            let q = spec_scan_string(s@.skip(start as int))->Some_0;
            assert(out@ + q.0 =~= q.0);
        }
    }
    while i < len
        invariant
            len == s@.len(),
            start <= i <= len,
            spec_scan_string(s@.skip(start as int)) == (match spec_scan_string(
                s@.skip(i as int),
            ) {
                Some(p) => Some((out@ + p.0, i - start + p.1)),
                None => None::<(Seq<char>, int)>,
            }),
        decreases len - i,
    {
        let ghost rest = s@.skip(i as int);
        proof {
            assert(rest[0] == s@[i as int]);
        }
        let c = s.get_char(i);
        if c == '"' {
            proof {
                assert(spec_scan_string(rest) == Some((Seq::<char>::empty(), 1int)));
                assert(out@ + Seq::<char>::empty() =~= out@);
            }
            return Some((out, i + 1));
        } else if c == '\\' {
            if i + 1 < len {
                let c2 = s.get_char(i + 1);
                proof {
                    assert(rest.len() >= 2);
                    assert(rest[1] == s@[i as int + 1]);
                    assert(rest.skip(2) =~= s@.skip(i as int + 2));
                }
                if c2 == '"' || c2 == '\\' {
                    let ghost out_old = out@;
                    push_char(&mut out, c2);
                    proof {
                        if spec_scan_string(s@.skip(i as int + 2)) is Some {
                            let q = spec_scan_string(s@.skip(i as int + 2))->Some_0;
                            assert(out_old + (seq![c2] + q.0) =~= out@ + q.0);
                        }
                    }
                    i = i + 2;
                } else {
                    proof {
                        assert(spec_scan_string(rest) is None);
                    }
                    return None;
                }
            } else {
                proof {
                    assert(rest.len() == 1);
                    assert(spec_scan_string(rest) is None);
                }
                return None;
            }
        } else {
            let ghost out_old = out@;
            push_char(&mut out, c);
            proof {
                assert(rest.drop_first() =~= s@.skip(i as int + 1));
                if spec_scan_string(s@.skip(i as int + 1)) is Some {
                    let q = spec_scan_string(s@.skip(i as int + 1))->Some_0;
                    assert(out_old + (seq![c] + q.0) =~= out@ + q.0);
                }
            }
            i = i + 1;
        }
    }
    proof {
        assert(s@.skip(i as int) =~= Seq::<char>::empty());
    }
    None
}

/// Scans list elements from `start` (just after the opening bracket): the
/// elements, and the position just after the closing bracket.
fn scan_list(s: &str, start: usize) -> (r: Option<(Vec<String>, usize)>)
    requires
        start <= s@.len(),
    ensures
        match r {
            Some(p) => start < p.1 <= s@.len() && spec_scan_list(s@.skip(start as int)) == Some(
                (p.0.deep_view(), p.1 - start as int),
            ),
            None => spec_scan_list(s@.skip(start as int)) is None,
        },
{
    let len = s.unicode_len();
    let mut items: Vec<String> = Vec::new();
    let mut i: usize = start;
    proof {
        if spec_scan_list(s@.skip(start as int)) is Some {
            let q = spec_scan_list(s@.skip(start as int))->Some_0;
            assert(items.deep_view() + q.0 =~= q.0);
        }
    }
    while i < len
        invariant
            len == s@.len(),
            start <= i <= len,
            spec_scan_list(s@.skip(start as int)) == (match spec_scan_list(s@.skip(i as int)) {
                Some(p) => Some((items.deep_view() + p.0, i - start + p.1)),
                None => None::<(Seq<Seq<char>>, int)>,
            }),
        decreases len - i,
    {
        let ghost rest = s@.skip(i as int);
        proof {
            assert(rest[0] == s@[i as int]);
        }
        let c = s.get_char(i);
        if c != '"' {
            proof {
                assert(spec_scan_list(rest) is None);
            }
            return None;
        }
        proof {
            assert(rest.drop_first() =~= s@.skip(i as int + 1));
        }
        match scan_string(s, i + 1) {
            None => {
                proof {
                    assert(spec_scan_list(rest) is None);
                }
                return None;
            },
            Some(p) => {
                let content = p.0;
                let end = p.1;
                let ghost cv = content@;
                if end < len {
                    let c2 = s.get_char(end);
                    proof {
                        assert(rest[end - i as int] == s@[end as int]);
                    }
                    if c2 == ']' {
                        let ghost items_old = items.deep_view();
                        items.push(content);
                        proof {
                            assert(items.deep_view() =~= items_old.push(cv));
                            assert(items_old + seq![cv] =~= items.deep_view());
                        }
                        return Some((items, end + 1));
                    } else if c2 == ',' && end + 1 < len && s.get_char(end + 1) == ' ' {
                        let ghost items_old = items.deep_view();
                        items.push(content);
                        proof {
                            assert(rest[end + 1 - i as int] == s@[end as int + 1]);
                            assert(rest.skip(end + 2 - i as int) =~= s@.skip(end as int + 2));
                            assert(items.deep_view() =~= items_old.push(cv));
                            if spec_scan_list(s@.skip(end as int + 2)) is Some {
                                let q = spec_scan_list(s@.skip(end as int + 2))->Some_0;
                                assert(items_old + (seq![cv] + q.0) =~= items.deep_view() + q.0);
                            }
                        }
                        i = end + 2;
                    } else {
                        proof {
                            if end + 1 < len {
                                assert(rest[end + 1 - i as int] == s@[end as int + 1]);
                            }
                            assert(spec_scan_list(rest) is None);
                        }
                        return None;
                    }
                } else {
                    proof {
                        assert(spec_scan_list(rest) is None);
                    }
                    return None;
                }
            },
        }
    }
    proof {
        assert(s@.skip(i as int) =~= Seq::<char>::empty());
    }
    None
}

/// Parses a whole text as one field value.
fn parse_value(v: &str) -> (r: Option<FieldValue>)
    ensures
        match r {
            Some(fv) => spec_parse_value(v@) == Some(fv@),
            None => spec_parse_value(v@) is None,
        },
{
    let len = v.unicode_len();
    if str_eq(v, "true") {
        return Some(FieldValue::Flag(true));
    }
    if str_eq(v, "false") {
        return Some(FieldValue::Flag(false));
    }
    if len >= 1 && v.get_char(0) == '"' {
        proof {
            assert(v@.drop_first() =~= v@.skip(1));
        }
        match scan_string(v, 1) {
            Some(p) => {
                if p.1 == len {
                    return Some(FieldValue::Str(p.0));
                } else {
                    return None;
                }
            },
            None => {
                return None;
            },
        }
    }
    if str_eq(v, "[]") {
        let empty: Vec<String> = Vec::new();
        proof {
            assert(empty.deep_view() =~= Seq::<Seq<char>>::empty());
            assert(ValueModel::VList(empty.deep_view()) =~= ValueModel::VList(seq![]));
        }
        return Some(FieldValue::List(empty));
    }
    if len >= 1 && v.get_char(0) == '[' {
        proof {
            assert(v@.drop_first() =~= v@.skip(1));
        }
        match scan_list(v, 1) {
            Some(p) => {
                if p.1 == len {
                    return Some(FieldValue::List(p.0));
                } else {
                    return None;
                }
            },
            None => {
                return None;
            },
        }
    }
    None
}

/// One line of the document, as the parser hands it on.
pub enum ParsedLine {
    /// An empty line.
    Blank,
    /// The `[[env]]` header.
    EnvHeader,
    /// A `key = value` pair.
    Pair(String, FieldValue),
    /// Anything else.
    Bad,
}

impl View for ParsedLine {
    type V = LineModel;

    open spec fn view(&self) -> LineModel {
        match self {
            ParsedLine::Blank => LineModel::Blank,
            ParsedLine::EnvHeader => LineModel::EnvHeader,
            ParsedLine::Pair(k, v) => LineModel::Pair(k@, v@),
            ParsedLine::Bad => LineModel::Bad,
        }
    }
}

/// Parses one line of the document.
pub fn parse_line(line: &str) -> (r: ParsedLine)
    ensures
        r@ == spec_parse_line(line@),
{
    let len = line.unicode_len();
    if len == 0 {
        return ParsedLine::Blank;
    }
    if str_eq(line, "[[env]]") {
        return ParsedLine::EnvHeader;
    }
    let mut k: usize = 0;
    while k < len && word_char(line.get_char(k))
        invariant
            len == line@.len(),
            k <= len,
            forall|t: int| 0 <= t < k ==> is_word_char(line@[t]),
        decreases len - k,
    {
        k = k + 1;
    }
    proof {
        lemma_word_end_unique(line@, 0, k as int);
    }
    if k == 0 {
        return ParsedLine::Bad;
    }
    if len >= 3 && k <= len - 3 && line.get_char(k) == ' ' && line.get_char(k + 1) == '='
        && line.get_char(k + 2) == ' ' {
        let key = String::from_str(line.substring_char(0, k));
        let rest = line.substring_char(k + 3, len);
        proof {
            assert(key@ =~= line@.subrange(0, k as int));
            assert(rest@ =~= line@.subrange(k as int + 3, line@.len() as int));
        }
        match parse_value(rest) {
            Some(fv) => {
                return ParsedLine::Pair(key, fv);
            },
            None => {
                return ParsedLine::Bad;
            },
        }
    }
    ParsedLine::Bad
}

/// The words of the closed action enumeration.
fn parse_action_kind(s: &str) -> (r: Option<ShimConfigEnvAction>)
    ensures
        r == spec_action_kind(s@),
{
    if str_eq(s, "set") {
        Some(ShimConfigEnvAction::SET)
    } else if str_eq(s, "clear") {
        Some(ShimConfigEnvAction::CLEAR)
    } else if str_eq(s, "append") {
        Some(ShimConfigEnvAction::APPEND)
    } else if str_eq(s, "prepend") {
        Some(ShimConfigEnvAction::PREPEND)
    } else {
        None
    }
}

/// The fields read so far for one action section.
struct CurItem {
    var: Option<String>,
    action: Option<ShimConfigEnvAction>,
    value: Option<String>,
    separator: Option<String>,
}

impl View for CurItem {
    type V = ItemState;

    closed spec fn view(&self) -> ItemState {
        ItemState {
            var: match self.var {
                Some(s) => Some(s@),
                None => None,
            },
            action: self.action,
            value: match self.value {
                Some(s) => Some(s@),
                None => None,
            },
            separator: match self.separator {
                Some(s) => Some(s@),
                None => None,
            },
        }
    }
}

/// The decoder state.
struct DecState {
    path: Option<String>,
    args: Option<Vec<String>>,
    win: Option<bool>,
    hidden: Option<bool>,
    wait: Option<bool>,
    env_expand_path: Option<bool>,
    env_expand_args: Option<bool>,
    env: Vec<ShimConfigEnvActionItem>,
    cur: Option<CurItem>,
}

impl View for DecState {
    type V = DocState;

    closed spec fn view(&self) -> DocState {
        DocState {
            path: match self.path {
                Some(s) => Some(s@),
                None => None,
            },
            args: match self.args {
                Some(a) => Some(a.deep_view()),
                None => None,
            },
            win: self.win,
            hidden: self.hidden,
            wait: self.wait,
            env_expand_path: self.env_expand_path,
            env_expand_args: self.env_expand_args,
            env: self.env@.map_values(|a: ShimConfigEnvActionItem| a@),
            cur: match self.cur {
                Some(it) => Some(it@),
                None => None,
            },
        }
    }
}

/// Closes one action section.
fn finish_item(it: &CurItem) -> (r: Result<ShimConfigEnvActionItem, DecodeError>)
    ensures
        match r {
            Ok(a) => spec_finish_item(it@) == Ok::<ActionModel, DecodeError>(a@),
            Err(e) => spec_finish_item(it@) == Err::<ActionModel, DecodeError>(e),
        },
{
    match &it.var {
        None => Err(DecodeError::MissingVar),
        Some(var) => {
            if var.as_str().is_empty() {
                Err(DecodeError::EmptyVar)
            } else {
                let a = ShimConfigEnvActionItem {
                    var: var.clone(),
                    action: match it.action {
                        Some(a) => a,
                        None => ShimConfigEnvAction::SET,
                    },
                    value: match &it.value {
                        Some(v) => v.clone(),
                        None => String::new(),
                    },
                    separator: match &it.separator {
                        Some(v) => v.clone(),
                        None => String::new(),
                    },
                };
                proof {
                    assert(a@ =~= spec_finish_item(it@)->Ok_0);
                }
                Ok(a)
            }
        },
    }
}

/// Closes the open action section of the state, if any.
fn close_item(st: &mut DecState) -> (r: Result<(), DecodeError>)
    ensures
        match r {
            Ok(_) => spec_close_item(old(st)@) == Ok::<DocState, DecodeError>(final(st)@),
            Err(e) => spec_close_item(old(st)@) == Err::<DocState, DecodeError>(e),
        },
{
    let cur = st.cur.take();
    match cur {
        None => {
            proof {
                assert(st@ =~= old(st)@);
            }
            Ok(())
        },
        Some(it) => {
            match finish_item(&it) {
                Ok(a) => {
                    let ghost av = a@;
                    let ghost env_old = st@.env;
                    st.env.push(a);
                    proof {
                        assert(st@.env =~= env_old.push(av));
                        assert(st@ =~= spec_close_item(old(st)@)->Ok_0);
                    }
                    Ok(())
                },
                Err(e) => Err(e),
            }
        },
    }
}

/// The root-table keys, applied to the state.
fn step_root(st: &mut DecState, k: &String, v: FieldValue) -> (r: Result<(), DecodeError>)
    ensures
        match r {
            Ok(_) => spec_step_root(old(st)@, k@, v@) == Ok::<DocState, DecodeError>(final(st)@),
            Err(e) => spec_step_root(old(st)@, k@, v@) == Err::<DocState, DecodeError>(e),
        },
{
    if str_eq(k.as_str(), "path") {
        match v {
            FieldValue::Str(s) => {
                st.path = Some(s);
                proof {
                    assert(st@ =~= spec_step_root(old(st)@, k@, v@)->Ok_0);
                }
                Ok(())
            },
            _ => Err(DecodeError::WrongType),
        }
    } else if str_eq(k.as_str(), "args") {
        match v {
            FieldValue::List(items) => {
                st.args = Some(items);
                proof {
                    assert(st@ =~= spec_step_root(old(st)@, k@, v@)->Ok_0);
                }
                Ok(())
            },
            _ => Err(DecodeError::WrongType),
        }
    } else if str_eq(k.as_str(), "win") {
        match v {
            FieldValue::Flag(b) => {
                st.win = Some(b);
                proof {
                    assert(st@ =~= spec_step_root(old(st)@, k@, v@)->Ok_0);
                }
                Ok(())
            },
            _ => Err(DecodeError::WrongType),
        }
    } else if str_eq(k.as_str(), "hidden") {
        match v {
            FieldValue::Flag(b) => {
                st.hidden = Some(b);
                proof {
                    assert(st@ =~= spec_step_root(old(st)@, k@, v@)->Ok_0);
                }
                Ok(())
            },
            _ => Err(DecodeError::WrongType),
        }
    } else if str_eq(k.as_str(), "wait") {
        match v {
            FieldValue::Flag(b) => {
                st.wait = Some(b);
                proof {
                    assert(st@ =~= spec_step_root(old(st)@, k@, v@)->Ok_0);
                }
                Ok(())
            },
            _ => Err(DecodeError::WrongType),
        }
    } else if str_eq(k.as_str(), "env_expand_path") {
        match v {
            FieldValue::Flag(b) => {
                st.env_expand_path = Some(b);
                proof {
                    assert(st@ =~= spec_step_root(old(st)@, k@, v@)->Ok_0);
                }
                Ok(())
            },
            _ => Err(DecodeError::WrongType),
        }
    } else if str_eq(k.as_str(), "env_expand_args") {
        match v {
            FieldValue::Flag(b) => {
                st.env_expand_args = Some(b);
                proof {
                    assert(st@ =~= spec_step_root(old(st)@, k@, v@)->Ok_0);
                }
                Ok(())
            },
            _ => Err(DecodeError::WrongType),
        }
    } else {
        proof {
            assert(st@ =~= old(st)@);
        }
        Ok(())
    }
}

/// One parsed line applied to the decoder state.
fn step_line(st: &mut DecState, line: ParsedLine) -> (r: Result<(), DecodeError>)
    ensures
        match r {
            Ok(_) => spec_step(old(st)@, line@) == Ok::<DocState, DecodeError>(final(st)@),
            Err(e) => spec_step(old(st)@, line@) == Err::<DocState, DecodeError>(e),
        },
{
    match line {
        ParsedLine::Blank => {
            proof {
                assert(st@ =~= old(st)@);
            }
            Ok(())
        },
        ParsedLine::Bad => Err(DecodeError::Syntax),
        ParsedLine::EnvHeader => {
            match close_item(st) {
                Ok(_) => {
                    st.cur = Some(
                        CurItem { var: None, action: None, value: None, separator: None },
                    );
                    proof {
                        assert(st@ =~= DocState {
                            cur: Some(empty_item()),
                            ..spec_close_item(old(st)@)->Ok_0
                        });
                    }
                    Ok(())
                },
                Err(e) => Err(e),
            }
        },
        ParsedLine::Pair(k, v) => {
            let has_cur = st.cur.is_some();
            if has_cur {
                let taken = st.cur.take();
                match taken {
                    Some(mut it) => {
                        let ghost it0 = it@;
                        if str_eq(k.as_str(), "var") {
                            match v {
                                FieldValue::Str(s) => {
                                    it.var = Some(s);
                                    st.cur = Some(it);
                                    proof {
                                        assert(st@ =~= spec_step_item(old(st)@, it0, k@, v@)->Ok_0);
                                    }
                                    Ok(())
                                },
                                _ => Err(DecodeError::WrongType),
                            }
                        } else if str_eq(k.as_str(), "action") {
                            match v {
                                FieldValue::Str(s) => {
                                    match parse_action_kind(s.as_str()) {
                                        Some(a) => {
                                            it.action = Some(a);
                                            st.cur = Some(it);
                                            proof {
                                                assert(st@ =~= spec_step_item(
                                                    old(st)@,
                                                    it0,
                                                    k@,
                                                    v@,
                                                )->Ok_0);
                                            }
                                            Ok(())
                                        },
                                        None => Err(DecodeError::BadAction),
                                    }
                                },
                                _ => Err(DecodeError::WrongType),
                            }
                        } else if str_eq(k.as_str(), "value") {
                            match v {
                                FieldValue::Str(s) => {
                                    it.value = Some(s);
                                    st.cur = Some(it);
                                    proof {
                                        assert(st@ =~= spec_step_item(old(st)@, it0, k@, v@)->Ok_0);
                                    }
                                    Ok(())
                                },
                                _ => Err(DecodeError::WrongType),
                            }
                        } else if str_eq(k.as_str(), "separator") {
                            match v {
                                FieldValue::Str(s) => {
                                    it.separator = Some(s);
                                    st.cur = Some(it);
                                    proof {
                                        assert(st@ =~= spec_step_item(old(st)@, it0, k@, v@)->Ok_0);
                                    }
                                    Ok(())
                                },
                                _ => Err(DecodeError::WrongType),
                            }
                        } else {
                            st.cur = Some(it);
                            proof {
                                assert(st@ =~= old(st)@);
                            }
                            Ok(())
                        }
                    },
                    None => {
                        proof {
                            assert(false);
                        }
                        Err(DecodeError::Syntax)
                    },
                }
            } else {
                step_root(st, &k, v)
            }
        },
    }
}

/// Decodes a descriptor document; total on all texts, with the stated
/// defaults for absent optional fields and a descriptive error for a
/// missing target, an unnamed action, or an unknown action kind.
pub fn decode(text: &str) -> (r: Result<ShimConfig, DecodeError>)
    ensures
        match r {
            Ok(c) => spec_decode(text@) == Ok::<ConfigModel, DecodeError>(c@),
            Err(e) => spec_decode(text@) == Err::<ConfigModel, DecodeError>(e),
        },
{
    let lines = split_char(text, '\n');
    let ghost lv = lines.deep_view();
    let mut st = DecState {
        path: None,
        args: None,
        win: None,
        hidden: None,
        wait: None,
        env_expand_path: None,
        env_expand_args: None,
        env: Vec::new(),
        cur: None,
    };
    proof {
        assert(st@.env =~= Seq::<ActionModel>::empty());
        assert(st@ =~= init_state());
        assert(lv.skip(0) =~= lv);
    }
    let n = lines.len();
    let mut i: usize = 0;
    while i < n
        invariant
            n == lines@.len(),
            i <= n,
            lv == lines.deep_view(),
            lv == spec_split(text@, '\n'),
            spec_fold_lines(lv, init_state()) == spec_fold_lines(lv.skip(i as int), st@),
        decreases n - i,
    {
        let l = &lines[i];
        let pl = parse_line(l.as_str());
        let ghost plv = pl@;
        let ghost st0 = st@;
        proof {
            assert(lv.skip(i as int)[0] == lv[i as int]);
            assert(lv[i as int] == lines@[i as int]@);
            assert(lv.skip(i as int).drop_first() =~= lv.skip(i as int + 1));
        }
        match step_line(&mut st, pl) {
            Ok(_) => {},
            Err(e) => {
                proof {
                    assert(spec_fold_lines(lv.skip(i as int), st0) == Err::<
                        DocState,
                        DecodeError,
                    >(e));
                }
                return Err(e);
            },
        }
        i = i + 1;
    }
    proof {
        assert(lv.skip(n as int) =~= Seq::<Seq<char>>::empty());
    }
    let ghost folded = st@;
    match close_item(&mut st) {
        Ok(_) => {},
        Err(e) => {
            return Err(e);
        },
    }
    let ghost closed = st@;
    let DecState {
        path,
        args,
        win,
        hidden,
        wait,
        env_expand_path,
        env_expand_args,
        env,
        cur: _,
    } = st;
    match path {
        None => Err(DecodeError::MissingPath),
        Some(p) => {
            if p.as_str().is_empty() {
                Err(DecodeError::EmptyPath)
            } else {
                let c = ShimConfig {
                    path: p,
                    args: match args {
                        Some(a) => a,
                        None => Vec::new(),
                    },
                    env,
                    win: match win {
                        Some(b) => b,
                        None => false,
                    },
                    hidden: match hidden {
                        Some(b) => b,
                        None => false,
                    },
                    wait: match wait {
                        Some(b) => b,
                        None => true,
                    },
                    env_expand_path: match env_expand_path {
                        Some(b) => b,
                        None => false,
                    },
                    env_expand_args: match env_expand_args {
                        Some(b) => b,
                        None => false,
                    },
                };
                proof {
                    assert(c@ =~= spec_finish(folded)->Ok_0);
                }
                Ok(c)
            }
        },
    }
}

} // verus!

