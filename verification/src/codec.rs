//! The storage codec: the JSON text the launcher writes for its command
//! list and its configuration record, and the parser that reads that text
//! back.
//!
//! The writer produces one canonical form — objects with a fixed field
//! order, strings with `\" \\ \n \r \t` escaped, no whitespace between
//! tokens — and the reader accepts exactly that form; a blank command file
//! stands for the empty list. Reading what was written returns the records
//! field for field, which is proved below (`lemma_commands_round_trip`,
//! `lemma_config_round_trip`).

use vstd::prelude::*;
use crate::models::{Command, CommandModel, Config, ConfigModel, CoreError};
use crate::text::{chars_of, push_char};

verus! {

// ---------------------------------------------------------------------------
// The written text, as spec functions.
// ---------------------------------------------------------------------------

/// How one character is written inside a quoted string.
pub open spec fn esc_char(c: char) -> Seq<char> {
    if c == '"' {
        seq!['\\', '"']
    } else if c == '\\' {
        seq!['\\', '\\']
    } else if c == '\n' {
        seq!['\\', 'n']
    } else if c == '\r' {
        seq!['\\', 'r']
    } else if c == '\t' {
        seq!['\\', 't']
    } else {
        seq![c]
    }
}

/// The body of a quoted string: each character escaped.
pub open spec fn esc(s: Seq<char>) -> Seq<char>
    decreases s.len(),
{
    if s.len() == 0 {
        Seq::empty()
    } else {
        esc_char(s[0]) + esc(s.skip(1))
    }
}

/// A quoted string.
pub open spec fn enc_str(s: Seq<char>) -> Seq<char> {
    seq!['"'] + esc(s) + seq!['"']
}

/// The text standing for an absent optional field.
pub open spec fn null_lit() -> Seq<char> {
    "null"@
}

pub open spec fn true_lit() -> Seq<char> {
    "true"@
}

pub open spec fn false_lit() -> Seq<char> {
    "false"@
}

/// An optional text field: a quoted string or `null`.
pub open spec fn enc_opt_str(o: Option<Seq<char>>) -> Seq<char> {
    match o {
        Some(s) => enc_str(s),
        None => null_lit(),
    }
}

pub open spec fn enc_bool(b: bool) -> Seq<char> {
    if b {
        true_lit()
    } else {
        false_lit()
    }
}

// The object keys, with the separator that precedes each.
pub open spec fn k_id() -> Seq<char> {
    "\"id\":"@
}

pub open spec fn k_name() -> Seq<char> {
    ",\"name\":"@
}

pub open spec fn k_script() -> Seq<char> {
    ",\"script\":"@
}

pub open spec fn k_kill_script() -> Seq<char> {
    ",\"kill_script\":"@
}

pub open spec fn k_shortcut() -> Seq<char> {
    ",\"shortcut\":"@
}

pub open spec fn k_description() -> Seq<char> {
    ",\"description\":"@
}

pub open spec fn k_safe_mode() -> Seq<char> {
    "\"safe_mode\":"@
}

pub open spec fn k_commands_path() -> Seq<char> {
    ",\"commands_path\":"@
}

/// One command as an object with every field present, `null` standing for
/// an absent optional field.
pub open spec fn enc_cmd(c: CommandModel) -> Seq<char> {
    seq!['{'] + k_id() + enc_str(c.id) + k_name() + enc_str(c.name) + k_script() + enc_str(c.script)
        + k_kill_script() + enc_opt_str(c.kill_script) + k_shortcut() + enc_opt_str(c.shortcut)
        + k_description() + enc_opt_str(c.description) + seq!['}']
}

/// The elements after the first, each preceded by a comma.
pub open spec fn enc_rest(cs: Seq<CommandModel>) -> Seq<char>
    decreases cs.len(),
{
    if cs.len() == 0 {
        Seq::empty()
    } else {
        seq![','] + enc_cmd(cs[0]) + enc_rest(cs.skip(1))
    }
}

/// The comma-separated elements of the command list.
pub open spec fn enc_items(cs: Seq<CommandModel>) -> Seq<char> {
    if cs.len() == 0 {
        Seq::empty()
    } else {
        enc_cmd(cs[0]) + enc_rest(cs.skip(1))
    }
}

/// The whole command list as an array.
pub open spec fn enc_cmds(cs: Seq<CommandModel>) -> Seq<char> {
    seq!['['] + enc_items(cs) + seq![']']
}

/// The configuration record as an object.
pub open spec fn enc_config(c: ConfigModel) -> Seq<char> {
    seq!['{'] + k_safe_mode() + enc_bool(c.safe_mode) + k_commands_path() + enc_opt_str(
        c.commands_path,
    ) + seq!['}']
}

// ---------------------------------------------------------------------------
// The accepted text, as a position-based parser.
// ---------------------------------------------------------------------------

/// One expected character at position `i`.
pub open spec fn p_char(s: Seq<char>, i: int, c: char) -> Option<int> {
    if 0 <= i < s.len() && s[i] == c {
        Some(i + 1)
    } else {
        None
    }
}

/// An expected literal at position `i`.
pub open spec fn p_lit(s: Seq<char>, i: int, lit: Seq<char>) -> Option<int> {
    if 0 <= i && i + lit.len() <= s.len() && s.subrange(i, i + lit.len()) == lit {
        Some(i + lit.len())
    } else {
        None
    }
}

/// What an escape code stands for.
pub open spec fn unesc_code(c: char) -> Option<char> {
    if c == '"' {
        Some('"')
    } else if c == '\\' {
        Some('\\')
    } else if c == 'n' {
        Some('\n')
    } else if c == 'r' {
        Some('\r')
    } else if c == 't' {
        Some('\t')
    } else {
        None
    }
}

/// The body of a quoted string from position `i` (past the opening quote)
/// up to and past the closing quote.
pub open spec fn p_str_body(s: Seq<char>, i: int) -> Option<(Seq<char>, int)>
    decreases s.len() - i,
{
    if i < 0 || i >= s.len() {
        None
    } else if s[i] == '"' {
        Some((Seq::empty(), i + 1))
    } else if s[i] == '\\' {
        if i + 1 < s.len() {
            match unesc_code(s[i + 1]) {
                Some(d) => match p_str_body(s, i + 2) {
                    Some((t, j)) => Some((seq![d] + t, j)),
                    None => None,
                },
                None => None,
            }
        } else {
            None
        }
    } else {
        match p_str_body(s, i + 1) {
            Some((t, j)) => Some((seq![s[i]] + t, j)),
            None => None,
        }
    }
}

/// A quoted string at position `i`.
pub open spec fn p_str(s: Seq<char>, i: int) -> Option<(Seq<char>, int)> {
    match p_char(s, i, '"') {
        Some(j) => p_str_body(s, j),
        None => None,
    }
}

/// An optional text field: a quoted string, or the `null` literal.
pub open spec fn p_opt_str(s: Seq<char>, i: int) -> Option<(Option<Seq<char>>, int)> {
    if 0 <= i < s.len() && s[i] == '"' {
        match p_str_body(s, i + 1) {
            Some((t, j)) => Some((Some(t), j)),
            None => None,
        }
    } else {
        match p_lit(s, i, null_lit()) {
            Some(j) => Some((None, j)),
            None => None,
        }
    }
}

/// A boolean literal.
pub open spec fn p_bool(s: Seq<char>, i: int) -> Option<(bool, int)> {
    match p_lit(s, i, true_lit()) {
        Some(j) => Some((true, j)),
        None => match p_lit(s, i, false_lit()) {
            Some(j) => Some((false, j)),
            None => None,
        },
    }
}

/// One command object at position `i`.
pub open spec fn p_cmd(s: Seq<char>, i: int) -> Option<(CommandModel, int)> {
    match p_char(s, i, '{') {
        None => None,
        Some(j0) => match p_lit(s, j0, k_id()) {
            None => None,
            Some(j1) => match p_str(s, j1) {
                None => None,
                Some((id, j2)) => match p_lit(s, j2, k_name()) {
                    None => None,
                    Some(j3) => match p_str(s, j3) {
                        None => None,
                        Some((name, j4)) => match p_lit(s, j4, k_script()) {
                            None => None,
                            Some(j5) => match p_str(s, j5) {
                                None => None,
                                Some((script, j6)) => match p_lit(s, j6, k_kill_script()) {
                                    None => None,
                                    Some(j7) => match p_opt_str(s, j7) {
                                        None => None,
                                        Some((kill_script, j8)) => match p_lit(
                                            s,
                                            j8,
                                            k_shortcut(),
                                        ) {
                                            None => None,
                                            Some(j9) => match p_opt_str(s, j9) {
                                                None => None,
                                                Some((shortcut, j10)) => match p_lit(
                                                    s,
                                                    j10,
                                                    k_description(),
                                                ) {
                                                    None => None,
                                                    Some(j11) => match p_opt_str(s, j11) {
                                                        None => None,
                                                        Some((description, j12)) => match p_char(
                                                            s,
                                                            j12,
                                                            '}',
                                                        ) {
                                                            None => None,
                                                            Some(j13) => Some(
                                                                (
                                                                    CommandModel {
                                                                        id,
                                                                        name,
                                                                        script,
                                                                        kill_script,
                                                                        shortcut,
                                                                        description,
                                                                    },
                                                                    j13,
                                                                ),
                                                            ),
                                                        },
                                                    },
                                                },
                                            },
                                        },
                                    },
                                },
                            },
                        },
                    },
                },
            },
        },
    }
}

/// The elements after one parsed element: `]` ends the array, `,` starts
/// the next element.
pub open spec fn p_cmds_tail(s: Seq<char>, i: int) -> Option<(Seq<CommandModel>, int)>
    decreases s.len() - i,
{
    if i < 0 || i >= s.len() {
        None
    } else if s[i] == ']' {
        Some((Seq::empty(), i + 1))
    } else if s[i] == ',' {
        match p_cmd(s, i + 1) {
            Some((c, j)) => if i < j <= s.len() {
                match p_cmds_tail(s, j) {
                    Some((cs, k)) => Some((seq![c] + cs, k)),
                    None => None,
                }
            } else {
                None
            },
            None => None,
        }
    } else {
        None
    }
}

/// The whole command array at position `i`.
pub open spec fn p_cmds(s: Seq<char>, i: int) -> Option<(Seq<CommandModel>, int)> {
    match p_char(s, i, '[') {
        None => None,
        Some(j0) => if 0 <= j0 < s.len() && s[j0] == ']' {
            Some((Seq::empty(), j0 + 1))
        } else {
            match p_cmd(s, j0) {
                Some((c, j1)) => match p_cmds_tail(s, j1) {
                    Some((cs, j2)) => Some((seq![c] + cs, j2)),
                    None => None,
                },
                None => None,
            }
        },
    }
}

/// The configuration object at position `i`.
pub open spec fn p_config(s: Seq<char>, i: int) -> Option<(ConfigModel, int)> {
    match p_char(s, i, '{') {
        None => None,
        Some(j0) => match p_lit(s, j0, k_safe_mode()) {
            None => None,
            Some(j1) => match p_bool(s, j1) {
                None => None,
                Some((safe_mode, j2)) => match p_lit(s, j2, k_commands_path()) {
                    None => None,
                    Some(j3) => match p_opt_str(s, j3) {
                        None => None,
                        Some((commands_path, j4)) => match p_char(s, j4, '}') {
                            None => None,
                            Some(j5) => Some((ConfigModel { safe_mode, commands_path }, j5)),
                        },
                    },
                },
            },
        },
    }
}

/// What a command file holds: a blank file stands for the empty list,
/// anything else must be one whole array.
pub open spec fn load_commands_spec(s: Seq<char>) -> Option<Seq<CommandModel>> {
    if crate::text::is_blank(s) {
        Some(Seq::empty())
    } else {
        match p_cmds(s, 0) {
            Some((cs, j)) => if j == s.len() {
                Some(cs)
            } else {
                None
            },
            None => None,
        }
    }
}

/// What a configuration file holds: one whole object.
pub open spec fn load_config_spec(s: Seq<char>) -> Option<ConfigModel> {
    match p_config(s, 0) {
        Some((c, j)) => if j == s.len() {
            Some(c)
        } else {
            None
        },
        None => None,
    }
}

// ---------------------------------------------------------------------------
// Reading what was written gives the records back.
// ---------------------------------------------------------------------------

/// Escaping distributes over concatenation.
pub proof fn lemma_esc_add(a: Seq<char>, b: Seq<char>)
    ensures
        esc(a + b) == esc(a) + esc(b),
    decreases a.len(),
{
    if a.len() == 0 {
        assert(a + b =~= b);
        assert(esc(a) + esc(b) =~= esc(b));
    } else {
        assert((a + b).skip(1) =~= a.skip(1) + b);
        lemma_esc_add(a.skip(1), b);
        assert(esc(a + b) =~= esc_char(a[0]) + (esc(a.skip(1)) + esc(b)));
        assert(esc_char(a[0]) + (esc(a.skip(1)) + esc(b)) =~= (esc_char(a[0]) + esc(a.skip(1)))
            + esc(b));
    }
}

/// A character never escapes to an empty or overlong code, and the first
/// code character tells raw and escaped apart.
proof fn lemma_esc_char_shape(c: char)
    ensures
        1 <= esc_char(c).len() <= 2,
        esc_char(c).len() == 2 ==> esc_char(c)[0] == '\\' && unesc_code(esc_char(c)[1]) == Some(c),
        esc_char(c).len() == 1 ==> esc_char(c)[0] == c && c != '"' && c != '\\',
{
}

/// A subrange equal to a concatenation splits into the two parts.
proof fn lemma_subrange_split(s: Seq<char>, i: int, a: Seq<char>, b: Seq<char>)
    requires
        0 <= i,
        i + a.len() + b.len() <= s.len(),
        s.subrange(i, i + a.len() + b.len()) == a + b,
    ensures
        s.subrange(i, i + a.len()) == a,
        s.subrange(i + a.len(), i + a.len() + b.len()) == b,
{
    let t = s.subrange(i, i + a.len() + b.len());
    let al = a.len() as int;
    assert forall|m: int| 0 <= m < a.len() implies s.subrange(i, i + a.len())[m] == a[m] by {
        assert(t[m] == s[i + m]);
        assert(t[m] == (a + b)[m]);
        assert((a + b)[m] == a[m]);
        assert(s.subrange(i, i + a.len())[m] == s[i + m]);
    }
    assert(s.subrange(i, i + a.len()) =~= a);
    assert forall|m: int|
        0 <= m < b.len() implies s.subrange(i + a.len(), i + a.len() + b.len())[m] == b[m] by {
        assert(t[al + m] == s[i + al + m]);
        assert(t[al + m] == (a + b)[al + m]);
        assert((a + b)[al + m] == b[m]);
        assert(s.subrange(i + a.len(), i + a.len() + b.len())[m] == s[i + al + m]);
    }
    assert(s.subrange(i + a.len(), i + a.len() + b.len()) =~= b);
}

/// The parser undoes the escaper: the written body of a string, followed by
/// its closing quote, reads back as the string.
proof fn lemma_p_str_body_round(s: Seq<char>, i: int, x: Seq<char>)
    requires
        0 <= i,
        i + esc(x).len() + 1 <= s.len(),
        s.subrange(i, i + esc(x).len() + 1) == esc(x).push('"'),
    ensures
        p_str_body(s, i) == Some((x, i + esc(x).len() + 1)),
    decreases x.len(),
{
    if x.len() == 0 {
        assert(s.subrange(i, i + 1)[0] == esc(x).push('"')[0]);
        assert(s[i] == '"');
    } else {
        let e0 = esc_char(x[0]);
        let rest = esc(x.skip(1));
        lemma_esc_char_shape(x[0]);
        assert(esc(x) == e0 + rest);
        assert(esc(x).push('"') =~= e0 + rest.push('"'));
        lemma_subrange_split(s, i, e0, rest.push('"'));
        let i2 = i + e0.len();
        assert(s.subrange(i, i + e0.len())[0] == e0[0]);
        assert(s[i] == e0[0]);
        lemma_p_str_body_round(s, i2, x.skip(1));
        if e0.len() == 1 {
            assert(s[i] == x[0]);
            assert(s[i] != '"' && s[i] != '\\');
            assert(p_str_body(s, i) == Some((seq![s[i]] + x.skip(1), i2 + rest.len() + 1)));
            assert(seq![x[0]] + x.skip(1) =~= x);
        } else {
            assert(s.subrange(i, i + e0.len())[1] == e0[1]);
            assert(s[i] == '\\');
            assert(s[i + 1] == e0[1]);
            assert(unesc_code(s[i + 1]) == Some(x[0]));
            assert(i + 1 < s.len());
            assert(p_str_body(s, i) == Some((seq![x[0]] + x.skip(1), i2 + rest.len() + 1)));
            assert(seq![x[0]] + x.skip(1) =~= x);
        }
        assert(i2 + rest.len() + 1 == i + esc(x).len() + 1);
    }
}

/// A literal that stands in the text reads past itself.
proof fn lemma_p_lit_round(s: Seq<char>, i: int, lit: Seq<char>)
    requires
        0 <= i,
        i + lit.len() <= s.len(),
        s.subrange(i, i + lit.len()) == lit,
    ensures
        p_lit(s, i, lit) == Some(i + lit.len()),
{
}

/// A written quoted string reads back as the string.
proof fn lemma_p_str_round(s: Seq<char>, i: int, x: Seq<char>)
    requires
        0 <= i,
        i + enc_str(x).len() <= s.len(),
        s.subrange(i, i + enc_str(x).len()) == enc_str(x),
    ensures
        p_str(s, i) == Some((x, i + enc_str(x).len())),
{
    assert(enc_str(x) =~= seq!['"'] + esc(x).push('"'));
    lemma_subrange_split(s, i, seq!['"'], esc(x).push('"'));
    assert(s.subrange(i, i + 1)[0] == '"');
    assert(s[i] == '"');
    lemma_p_str_body_round(s, i + 1, x);
}

/// A written optional field reads back as the option.
proof fn lemma_p_opt_round(s: Seq<char>, i: int, o: Option<Seq<char>>)
    requires
        0 <= i,
        i + enc_opt_str(o).len() <= s.len(),
        s.subrange(i, i + enc_opt_str(o).len()) == enc_opt_str(o),
    ensures
        p_opt_str(s, i) == Some((o, i + enc_opt_str(o).len())),
{
    reveal_strlit("null");
    match o {
        Some(x) => {
            assert(enc_str(x) =~= seq!['"'] + esc(x).push('"'));
            lemma_subrange_split(s, i, seq!['"'], esc(x).push('"'));
            assert(s.subrange(i, i + 1)[0] == '"');
            assert(s[i] == '"');
            lemma_p_str_body_round(s, i + 1, x);
        },
        None => {
            assert(s.subrange(i, i + 4)[0] == null_lit()[0]);
            assert(s[i] == 'n');
            assert(s[i] != '"');
            lemma_p_lit_round(s, i, null_lit());
        },
    }
}

/// A written boolean reads back as the flag.
proof fn lemma_p_bool_round(s: Seq<char>, i: int, b: bool)
    requires
        0 <= i,
        i + enc_bool(b).len() <= s.len(),
        s.subrange(i, i + enc_bool(b).len()) == enc_bool(b),
    ensures
        p_bool(s, i) == Some((b, i + enc_bool(b).len())),
{
    reveal_strlit("true");
    reveal_strlit("false");
    if b {
        lemma_p_lit_round(s, i, true_lit());
    } else {
        lemma_p_lit_round(s, i, false_lit());
        assert(s.subrange(i, i + 5)[0] == false_lit()[0]);
        assert(s[i] == 'f');
        if p_lit(s, i, true_lit()) is Some {
            assert(s.subrange(i, i + 4)[0] == true_lit()[0]);
            assert(false);
        }
    }
}

/// A written command object opens with its brace.
proof fn lemma_enc_cmd_first(c: CommandModel)
    ensures
        enc_cmd(c).len() >= 2,
        enc_cmd(c)[0] == '{',
{
}

/// A written command object reads back as the command.
proof fn lemma_p_cmd_round(s: Seq<char>, i: int, c: CommandModel)
    requires
        0 <= i,
        i + enc_cmd(c).len() <= s.len(),
        s.subrange(i, i + enc_cmd(c).len()) == enc_cmd(c),
    ensures
        p_cmd(s, i) == Some((c, i + enc_cmd(c).len())),
{
    let e0 = seq!['{'];
    let e1 = e0 + k_id();
    let e2 = e1 + enc_str(c.id);
    let e3 = e2 + k_name();
    let e4 = e3 + enc_str(c.name);
    let e5 = e4 + k_script();
    let e6 = e5 + enc_str(c.script);
    let e7 = e6 + k_kill_script();
    let e8 = e7 + enc_opt_str(c.kill_script);
    let e9 = e8 + k_shortcut();
    let e10 = e9 + enc_opt_str(c.shortcut);
    let e11 = e10 + k_description();
    let e12 = e11 + enc_opt_str(c.description);
    assert(enc_cmd(c) == e12 + seq!['}']);
    lemma_subrange_split(s, i, e12, seq!['}']);
    lemma_subrange_split(s, i, e11, enc_opt_str(c.description));
    lemma_subrange_split(s, i, e10, k_description());
    lemma_subrange_split(s, i, e9, enc_opt_str(c.shortcut));
    lemma_subrange_split(s, i, e8, k_shortcut());
    lemma_subrange_split(s, i, e7, enc_opt_str(c.kill_script));
    lemma_subrange_split(s, i, e6, k_kill_script());
    lemma_subrange_split(s, i, e5, enc_str(c.script));
    lemma_subrange_split(s, i, e4, k_script());
    lemma_subrange_split(s, i, e3, enc_str(c.name));
    lemma_subrange_split(s, i, e2, k_name());
    lemma_subrange_split(s, i, e1, enc_str(c.id));
    lemma_subrange_split(s, i, e0, k_id());
    assert(s.subrange(i, i + 1)[0] == '{');
    assert(s[i] == '{');
    assert(p_char(s, i, '{') == Some(i + 1));
    lemma_p_lit_round(s, i + e0.len(), k_id());
    lemma_p_str_round(s, i + e1.len(), c.id);
    lemma_p_lit_round(s, i + e2.len(), k_name());
    lemma_p_str_round(s, i + e3.len(), c.name);
    lemma_p_lit_round(s, i + e4.len(), k_script());
    lemma_p_str_round(s, i + e5.len(), c.script);
    lemma_p_lit_round(s, i + e6.len(), k_kill_script());
    lemma_p_opt_round(s, i + e7.len(), c.kill_script);
    lemma_p_lit_round(s, i + e8.len(), k_shortcut());
    lemma_p_opt_round(s, i + e9.len(), c.shortcut);
    lemma_p_lit_round(s, i + e10.len(), k_description());
    lemma_p_opt_round(s, i + e11.len(), c.description);
    assert(s.subrange(i + e12.len(), i + e12.len() + 1)[0] == '}');
    assert(s[i + e12.len()] == '}');
    assert(p_char(s, i + e12.len(), '}') == Some(i + e12.len() + 1));
}

/// The written tail of an array — each further element behind a comma, then
/// the closing bracket — reads back as those elements.
proof fn lemma_p_cmds_tail_round(s: Seq<char>, i: int, cs: Seq<CommandModel>)
    requires
        0 <= i,
        i + enc_rest(cs).len() + 1 <= s.len(),
        s.subrange(i, i + enc_rest(cs).len() + 1) == enc_rest(cs).push(']'),
    ensures
        p_cmds_tail(s, i) == Some((cs, i + enc_rest(cs).len() + 1)),
    decreases cs.len(),
{
    if cs.len() == 0 {
        assert(s.subrange(i, i + 1)[0] == enc_rest(cs).push(']')[0]);
        assert(s[i] == ']');
    } else {
        let head = seq![','] + enc_cmd(cs[0]);
        let tail = enc_rest(cs.skip(1)).push(']');
        assert(enc_rest(cs).push(']') =~= head + tail);
        lemma_subrange_split(s, i, head, tail);
        lemma_subrange_split(s, i, seq![','], enc_cmd(cs[0]));
        assert(s.subrange(i, i + 1)[0] == ',');
        assert(s[i] == ',');
        lemma_p_cmd_round(s, i + 1, cs[0]);
        let j = i + 1 + enc_cmd(cs[0]).len();
        lemma_p_cmds_tail_round(s, j, cs.skip(1));
        assert(seq![cs[0]] + cs.skip(1) =~= cs);
    }
}

/// A written command array reads back as the list.
#[verifier::rlimit(50)]
proof fn lemma_p_cmds_round(s: Seq<char>, i: int, cs: Seq<CommandModel>)
    requires
        0 <= i,
        i + enc_cmds(cs).len() <= s.len(),
        s.subrange(i, i + enc_cmds(cs).len()) == enc_cmds(cs),
    ensures
        p_cmds(s, i) == Some((cs, i + enc_cmds(cs).len())),
{
    assert(enc_cmds(cs) =~= seq!['['] + enc_items(cs).push(']'));
    lemma_subrange_split(s, i, seq!['['], enc_items(cs).push(']'));
    assert(s.subrange(i, i + 1)[0] == '[');
    assert(s[i] == '[');
    if cs.len() == 0 {
        assert(s.subrange(i + 1, i + 2)[0] == enc_items(cs).push(']')[0]);
        assert(s[i + 1] == ']');
    } else {
        assert(enc_items(cs).push(']') =~= enc_cmd(cs[0]) + enc_rest(cs.skip(1)).push(']'));
        lemma_subrange_split(s, i + 1, enc_cmd(cs[0]), enc_rest(cs.skip(1)).push(']'));
        lemma_enc_cmd_first(cs[0]);
        assert(s.subrange(i + 1, i + 1 + enc_cmd(cs[0]).len())[0] == enc_cmd(cs[0])[0]);
        assert(s[i + 1] == '{');
        lemma_p_cmd_round(s, i + 1, cs[0]);
        let j = i + 1 + enc_cmd(cs[0]).len();
        lemma_p_cmds_tail_round(s, j, cs.skip(1));
        assert(seq![cs[0]] + cs.skip(1) =~= cs);
    }
}

/// A written configuration object reads back as the record.
proof fn lemma_p_config_round(s: Seq<char>, i: int, c: ConfigModel)
    requires
        0 <= i,
        i + enc_config(c).len() <= s.len(),
        s.subrange(i, i + enc_config(c).len()) == enc_config(c),
    ensures
        p_config(s, i) == Some((c, i + enc_config(c).len())),
{
    let e0 = seq!['{'];
    let e1 = e0 + k_safe_mode();
    let e2 = e1 + enc_bool(c.safe_mode);
    let e3 = e2 + k_commands_path();
    let e4 = e3 + enc_opt_str(c.commands_path);
    assert(enc_config(c) == e4 + seq!['}']);
    lemma_subrange_split(s, i, e4, seq!['}']);
    lemma_subrange_split(s, i, e3, enc_opt_str(c.commands_path));
    lemma_subrange_split(s, i, e2, k_commands_path());
    lemma_subrange_split(s, i, e1, enc_bool(c.safe_mode));
    lemma_subrange_split(s, i, e0, k_safe_mode());
    assert(s.subrange(i, i + 1)[0] == '{');
    assert(s[i] == '{');
    lemma_p_lit_round(s, i + e0.len(), k_safe_mode());
    lemma_p_bool_round(s, i + e1.len(), c.safe_mode);
    lemma_p_lit_round(s, i + e2.len(), k_commands_path());
    lemma_p_opt_round(s, i + e3.len(), c.commands_path);
    assert(s.subrange(i + e4.len(), i + e4.len() + 1)[0] == '}');
    assert(s[i + e4.len()] == '}');
}

/// Saving a command list and loading it back is the identity: the stored
/// text of any list reads back as that list, record for record and field
/// for field.
pub proof fn lemma_commands_round_trip(cs: Seq<CommandModel>)
    ensures
        load_commands_spec(enc_cmds(cs)) == Some(cs),
{
    let s = enc_cmds(cs);
    assert(s[0] == '[') by {
        assert(s =~= seq!['['] + enc_items(cs).push(']'));
    }
    assert(!crate::text::is_blank(s)) by {
        assert(!crate::text::is_space_char(s[0]));
    }
    assert(s.subrange(0, s.len() as int) =~= s);
    lemma_p_cmds_round(s, 0, cs);
}

/// Saving the configuration record and loading it back is the identity.
pub proof fn lemma_config_round_trip(c: ConfigModel)
    ensures
        load_config_spec(enc_config(c)) == Some(c),
{
    let s = enc_config(c);
    assert(s.subrange(0, s.len() as int) =~= s);
    lemma_p_config_round(s, 0, c);
}

/// Appending an element to the list appends its text (and a separating
/// comma when one is needed) to the written elements.
proof fn lemma_enc_rest_push(cs: Seq<CommandModel>, x: CommandModel)
    ensures
        enc_rest(cs.push(x)) == enc_rest(cs) + (seq![','] + enc_cmd(x)),
    decreases cs.len(),
{
    if cs.len() == 0 {
        assert(cs.push(x)[0] == x);
        assert(cs.push(x).skip(1) =~= Seq::<CommandModel>::empty());
        assert(enc_rest(Seq::<CommandModel>::empty()) == Seq::<char>::empty());
        assert(enc_rest(cs.push(x)) == seq![','] + enc_cmd(x) + enc_rest(
            Seq::<CommandModel>::empty(),
        ));
        assert(enc_rest(cs.push(x)) =~= enc_rest(cs) + (seq![','] + enc_cmd(x)));
    } else {
        assert(cs.push(x)[0] == cs[0]);
        assert(cs.push(x).skip(1) =~= cs.skip(1).push(x));
        lemma_enc_rest_push(cs.skip(1), x);
        assert(enc_rest(cs.push(x)) == seq![','] + enc_cmd(cs[0]) + enc_rest(
            cs.skip(1).push(x),
        ));
        assert(enc_rest(cs.skip(1).push(x)) == enc_rest(cs.skip(1)) + (seq![','] + enc_cmd(x)));
        assert(seq![','] + enc_cmd(cs[0]) + (enc_rest(cs.skip(1)) + (seq![','] + enc_cmd(x)))
            =~= (seq![','] + enc_cmd(cs[0]) + enc_rest(cs.skip(1))) + (seq![','] + enc_cmd(x)));
    }
}

proof fn lemma_enc_items_push(cs: Seq<CommandModel>, x: CommandModel)
    ensures
        cs.len() == 0 ==> enc_items(cs.push(x)) == enc_cmd(x),
        cs.len() > 0 ==> enc_items(cs.push(x)) == enc_items(cs) + (seq![','] + enc_cmd(x)),
{
    if cs.len() == 0 {
        assert(cs.push(x)[0] == x);
        assert(cs.push(x).skip(1) =~= Seq::<CommandModel>::empty());
        assert(enc_rest(Seq::<CommandModel>::empty()) == Seq::<char>::empty());
        assert(enc_items(cs.push(x)) == enc_cmd(x) + enc_rest(Seq::<CommandModel>::empty()));
        assert(enc_items(cs.push(x)) =~= enc_cmd(x));
    } else {
        assert(cs.push(x)[0] == cs[0]);
        assert(cs.push(x).skip(1) =~= cs.skip(1).push(x));
        lemma_enc_rest_push(cs.skip(1), x);
        assert(enc_items(cs.push(x)) == enc_cmd(cs[0]) + enc_rest(cs.skip(1).push(x)));
        assert(enc_rest(cs.skip(1).push(x)) == enc_rest(cs.skip(1)) + (seq![','] + enc_cmd(x)));
        assert(enc_cmd(cs[0]) + (enc_rest(cs.skip(1)) + (seq![','] + enc_cmd(x))) =~= (enc_cmd(
            cs[0],
        ) + enc_rest(cs.skip(1))) + (seq![','] + enc_cmd(x)));
    }
}

/// Extending a string by one character extends its escaped body by that
/// character's code.
proof fn lemma_esc_snoc(s: Seq<char>, i: int)
    requires
        0 <= i < s.len(),
    ensures
        esc(s.take(i + 1)) == esc(s.take(i)) + esc_char(s[i]),
{
    assert(s.take(i + 1) =~= s.take(i) + seq![s[i]]);
    lemma_esc_add(s.take(i), seq![s[i]]);
    assert(seq![s[i]].skip(1) =~= Seq::<char>::empty());
    assert(esc(Seq::<char>::empty()) == Seq::<char>::empty());
    assert(esc(seq![s[i]]) == esc_char(s[i]) + esc(Seq::<char>::empty()));
    assert(esc(seq![s[i]]) =~= esc_char(s[i]));
    assert(esc(s.take(i)) + esc(seq![s[i]]) =~= esc(s.take(i)) + esc_char(s[i]));
}

// ---------------------------------------------------------------------------
// Writing.
// ---------------------------------------------------------------------------

/// The escaped body of a string.
fn escape_body(s: &str) -> (r: String)
    ensures
        r@ == esc(s@),
{
    let n = s.unicode_len();
    let mut r = String::new();
    let mut i: usize = 0;
    proof {
        assert(s@.take(0) =~= Seq::<char>::empty());
    }
    while i < n
        invariant
            n == s@.len(),
            i <= n,
            r@ == esc(s@.take(i as int)),
        decreases n - i,
    {
        let c = s.get_char(i);
        if c == '"' {
            push_char(&mut r, '\\');
            push_char(&mut r, '"');
        } else if c == '\\' {
            push_char(&mut r, '\\');
            push_char(&mut r, '\\');
        } else if c == '\n' {
            push_char(&mut r, '\\');
            push_char(&mut r, 'n');
        } else if c == '\r' {
            push_char(&mut r, '\\');
            push_char(&mut r, 'r');
        } else if c == '\t' {
            push_char(&mut r, '\\');
            push_char(&mut r, 't');
        } else {
            push_char(&mut r, c);
        }
        proof {
            lemma_esc_snoc(s@, i as int);
            assert(r@ =~= esc(s@.take(i + 1)));
        }
        i = i + 1;
    }
    proof {
        assert(s@.take(n as int) =~= s@);
    }
    r
}

/// Appends a quoted, escaped string.
fn append_str_enc(out: &mut String, s: &str)
    ensures
        final(out)@ == old(out)@ + enc_str(s@),
{
    push_char(out, '"');
    let body = escape_body(s);
    out.append(body.as_str());
    push_char(out, '"');
    proof {
        assert(final(out)@ =~= old(out)@ + enc_str(s@));
    }
}

/// Appends an optional field: a quoted string or `null`.
fn append_opt_enc(out: &mut String, o: &Option<String>)
    ensures
        final(out)@ == old(out)@ + enc_opt_str(o.deep_view()),
{
    match o {
        Some(s) => append_str_enc(out, s.as_str()),
        None => out.append("null"),
    }
}

/// Appends a boolean literal.
fn append_bool_enc(out: &mut String, b: bool)
    ensures
        final(out)@ == old(out)@ + enc_bool(b),
{
    if b {
        out.append("true");
    } else {
        out.append("false");
    }
}

/// Appends one command as an object.
fn append_cmd_enc(out: &mut String, c: &Command)
    ensures
        final(out)@ == old(out)@ + enc_cmd(c@),
{
    push_char(out, '{');
    out.append("\"id\":");
    append_str_enc(out, c.id.as_str());
    out.append(",\"name\":");
    append_str_enc(out, c.name.as_str());
    out.append(",\"script\":");
    append_str_enc(out, c.script.as_str());
    out.append(",\"kill_script\":");
    append_opt_enc(out, &c.kill_script);
    out.append(",\"shortcut\":");
    append_opt_enc(out, &c.shortcut);
    out.append(",\"description\":");
    append_opt_enc(out, &c.description);
    push_char(out, '}');
    proof {
        assert(final(out)@ =~= old(out)@ + enc_cmd(c@));
    }
}

/// The stored text of a command list.
pub fn encode_commands(commands: &Vec<Command>) -> (r: String)
    ensures
        r@ == enc_cmds(commands.deep_view()),
{
    let ghost cs = commands.deep_view();
    let mut out = String::new();
    push_char(&mut out, '[');
    proof {
        assert(cs.take(0) =~= Seq::<CommandModel>::empty());
        assert(enc_items(Seq::<CommandModel>::empty()) == Seq::<char>::empty());
        assert(out@ =~= seq!['['] + enc_items(cs.take(0)));
    }
    let mut i: usize = 0;
    while i < commands.len()
        invariant
            cs == commands.deep_view(),
            cs.len() == commands@.len(),
            i <= cs.len(),
            out@ == seq!['['] + enc_items(cs.take(i as int)),
        decreases cs.len() - i,
    {
        if i > 0 {
            push_char(&mut out, ',');
        }
        append_cmd_enc(&mut out, &commands[i]);
        proof {
            assert(commands@[i as int]@ == cs[i as int]);
            assert(cs.take(i + 1) =~= cs.take(i as int).push(cs[i as int]));
            lemma_enc_items_push(cs.take(i as int), cs[i as int]);
            assert(out@ =~= seq!['['] + enc_items(cs.take(i + 1)));
        }
        i = i + 1;
    }
    push_char(&mut out, ']');
    proof {
        assert(cs.take(cs.len() as int) =~= cs);
        assert(out@ =~= enc_cmds(cs));
    }
    out
}

/// The stored text of the configuration record.
pub fn encode_config(config: &Config) -> (r: String)
    ensures
        r@ == enc_config(config@),
{
    let mut out = String::new();
    push_char(&mut out, '{');
    out.append("\"safe_mode\":");
    append_bool_enc(&mut out, config.safe_mode);
    out.append(",\"commands_path\":");
    append_opt_enc(&mut out, &config.commands_path);
    push_char(&mut out, '}');
    proof {
        assert(out@ =~= enc_config(config@));
    }
    out
}

// ---------------------------------------------------------------------------
// Reading.
// ---------------------------------------------------------------------------

/// A parsed string body ends past where it began and inside the text.
proof fn lemma_p_str_body_bounds(s: Seq<char>, i: int)
    ensures
        p_str_body(s, i) matches Some((t, j)) ==> i < j <= s.len(),
    decreases s.len() - i,
{
    if 0 <= i < s.len() && s[i] != '"' {
        if s[i] == '\\' {
            if i + 1 < s.len() {
                lemma_p_str_body_bounds(s, i + 2);
            }
        } else {
            lemma_p_str_body_bounds(s, i + 1);
        }
    }
}

/// A parsed command object ends past where it began and inside the text.
proof fn lemma_p_cmd_bounds(s: Seq<char>, i: int)
    ensures
        p_cmd(s, i) matches Some((c, j)) ==> i < j <= s.len(),
{
    if p_cmd(s, i) is Some {
        let j1 = p_lit(s, i + 1, k_id())->0;
        lemma_p_str_body_bounds(s, j1 + 1);
        let j2 = (p_str(s, j1)->0).1;
        let j3 = p_lit(s, j2, k_name())->0;
        lemma_p_str_body_bounds(s, j3 + 1);
        let j4 = (p_str(s, j3)->0).1;
        let j5 = p_lit(s, j4, k_script())->0;
        lemma_p_str_body_bounds(s, j5 + 1);
        let j6 = (p_str(s, j5)->0).1;
        let j7 = p_lit(s, j6, k_kill_script())->0;
        lemma_p_str_body_bounds(s, j7 + 1);
        let j8 = (p_opt_str(s, j7)->0).1;
        let j9 = p_lit(s, j8, k_shortcut())->0;
        lemma_p_str_body_bounds(s, j9 + 1);
        let j10 = (p_opt_str(s, j9)->0).1;
        let j11 = p_lit(s, j10, k_description())->0;
        lemma_p_str_body_bounds(s, j11 + 1);
    }
}

/// An expected literal at a position.
fn expect_lit(s: &Vec<char>, i: usize, pat: &Vec<char>) -> (r: Option<usize>)
    ensures
        match r {
            Some(j) => p_lit(s@, i as int, pat@) == Some(j as int) && i <= j <= s@.len(),
            None => p_lit(s@, i as int, pat@) is None,
        },
{
    if i > s.len() || pat.len() > s.len() - i {
        return None;
    }
    let mut k: usize = 0;
    while k < pat.len()
        invariant
            i + pat@.len() <= s@.len(),
            s@.len() <= usize::MAX,
            k <= pat@.len(),
            forall|m: int| 0 <= m < k ==> s@[i + m] == pat@[m],
        decreases pat@.len() - k,
    {
        if s[i + k] != pat[k] {
            proof {
                assert(s@.subrange(i as int, i + pat@.len())[k as int] == s@[i + k]);
                assert(s@.subrange(i as int, i + pat@.len()) != pat@);
            }
            return None;
        }
        k = k + 1;
    }
    proof {
        assert(s@.subrange(i as int, i + pat@.len()) =~= pat@);
    }
    Some(i + pat.len())
}

/// A quoted string at a position: its decoded characters and the position
/// past the closing quote.
fn parse_string_at(s: &Vec<char>, i: usize) -> (r: Option<(String, usize)>)
    ensures
        match r {
            Some(t) => p_str(s@, i as int) == Some((t.0@, t.1 as int)) && t.1 <= s@.len(),
            None => p_str(s@, i as int) is None,
        },
{
    if i >= s.len() || s[i] != '"' {
        return None;
    }
    let mut acc = String::new();
    let mut cur: usize = i + 1;
    loop
        invariant
            i < s@.len(),
            s@[i as int] == '"',
            i + 1 <= cur <= s@.len(),
            (match p_str_body(s@, cur as int) {
                Some((t, j)) => p_str_body(s@, i + 1) == Some((acc@ + t, j)),
                None => p_str_body(s@, i + 1) is None,
            }),
        decreases s@.len() - cur,
    {
        if cur >= s.len() {
            return None;
        }
        let c = s[cur];
        if c == '"' {
            proof {
                assert(p_str_body(s@, cur as int) == Some((Seq::<char>::empty(), cur + 1)));
                assert(acc@ + Seq::<char>::empty() =~= acc@);
            }
            return Some((acc, cur + 1));
        } else if c == '\\' {
            if cur + 1 >= s.len() {
                return None;
            }
            let code = s[cur + 1];
            let d: char;
            if code == '"' {
                d = '"';
            } else if code == '\\' {
                d = '\\';
            } else if code == 'n' {
                d = '\n';
            } else if code == 'r' {
                d = '\r';
            } else if code == 't' {
                d = '\t';
            } else {
                return None;
            }
            proof {
                assert(unesc_code(s@[cur as int + 1]) == Some(d));
            }
            let ghost acc_before = acc@;
            push_char(&mut acc, d);
            proof {
                let res = p_str_body(s@, cur + 2);
                if res is Some {
                    let tj = res->0;
                    assert(p_str_body(s@, cur as int) == Some((seq![d] + tj.0, tj.1)));
                    assert(acc_before + (seq![d] + tj.0) =~= acc@ + tj.0);
                }
            }
            cur = cur + 2;
        } else {
            let ghost acc_before = acc@;
            push_char(&mut acc, c);
            proof {
                let res = p_str_body(s@, cur + 1);
                if res is Some {
                    let tj = res->0;
                    assert(p_str_body(s@, cur as int) == Some((seq![c] + tj.0, tj.1)));
                    assert(acc_before + (seq![c] + tj.0) =~= acc@ + tj.0);
                }
            }
            cur = cur + 1;
        }
    }
}

/// An optional field at a position: a quoted string or `null`.
fn parse_opt_at(s: &Vec<char>, i: usize) -> (r: Option<(Option<String>, usize)>)
    ensures
        match r {
            Some(t) => p_opt_str(s@, i as int) == Some((t.0.deep_view(), t.1 as int)) && t.1
                <= s@.len(),
            None => p_opt_str(s@, i as int) is None,
        },
{
    if i < s.len() && s[i] == '"' {
        match parse_string_at(s, i) {
            Some((t, j)) => Some((Some(t), j)),
            None => None,
        }
    } else {
        let pat = chars_of("null");
        match expect_lit(s, i, &pat) {
            Some(j) => Some((None, j)),
            None => None,
        }
    }
}

/// A boolean literal at a position.
fn parse_bool_at(s: &Vec<char>, i: usize) -> (r: Option<(bool, usize)>)
    ensures
        match r {
            Some(t) => p_bool(s@, i as int) == Some((t.0, t.1 as int)) && t.1 <= s@.len(),
            None => p_bool(s@, i as int) is None,
        },
{
    let t_pat = chars_of("true");
    match expect_lit(s, i, &t_pat) {
        Some(j) => Some((true, j)),
        None => {
            let f_pat = chars_of("false");
            match expect_lit(s, i, &f_pat) {
                Some(j) => Some((false, j)),
                None => None,
            }
        },
    }
}

/// One command object at a position.
fn parse_command_at(s: &Vec<char>, i: usize) -> (r: Option<(Command, usize)>)
    ensures
        match r {
            Some(t) => p_cmd(s@, i as int) == Some((t.0@, t.1 as int)) && t.1 <= s@.len(),
            None => p_cmd(s@, i as int) is None,
        },
{
    if i >= s.len() || s[i] != '{' {
        return None;
    }
    let j0 = i + 1;
    let j1 = match expect_lit(s, j0, &chars_of("\"id\":")) {
        Some(j) => j,
        None => {
            return None;
        },
    };
    let (id, j2) = match parse_string_at(s, j1) {
        Some(t) => t,
        None => {
            return None;
        },
    };
    let j3 = match expect_lit(s, j2, &chars_of(",\"name\":")) {
        Some(j) => j,
        None => {
            return None;
        },
    };
    let (name, j4) = match parse_string_at(s, j3) {
        Some(t) => t,
        None => {
            return None;
        },
    };
    let j5 = match expect_lit(s, j4, &chars_of(",\"script\":")) {
        Some(j) => j,
        None => {
            return None;
        },
    };
    let (script, j6) = match parse_string_at(s, j5) {
        Some(t) => t,
        None => {
            return None;
        },
    };
    let j7 = match expect_lit(s, j6, &chars_of(",\"kill_script\":")) {
        Some(j) => j,
        None => {
            return None;
        },
    };
    let (kill_script, j8) = match parse_opt_at(s, j7) {
        Some(t) => t,
        None => {
            return None;
        },
    };
    let j9 = match expect_lit(s, j8, &chars_of(",\"shortcut\":")) {
        Some(j) => j,
        None => {
            return None;
        },
    };
    let (shortcut, j10) = match parse_opt_at(s, j9) {
        Some(t) => t,
        None => {
            return None;
        },
    };
    let j11 = match expect_lit(s, j10, &chars_of(",\"description\":")) {
        Some(j) => j,
        None => {
            return None;
        },
    };
    let (description, j12) = match parse_opt_at(s, j11) {
        Some(t) => t,
        None => {
            return None;
        },
    };
    if j12 >= s.len() || s[j12] != '}' {
        return None;
    }
    let c = Command { id, name, script, kill_script, shortcut, description };
    Some((c, j12 + 1))
}

/// The whole command array at a position.
fn parse_commands_at(s: &Vec<char>, i: usize) -> (r: Option<(Vec<Command>, usize)>)
    ensures
        match r {
            Some(t) => p_cmds(s@, i as int) == Some((t.0.deep_view(), t.1 as int)) && t.1
                <= s@.len(),
            None => p_cmds(s@, i as int) is None,
        },
{
    if i >= s.len() || s[i] != '[' {
        return None;
    }
    let mut acc: Vec<Command> = Vec::new();
    if i + 1 < s.len() && s[i + 1] == ']' {
        proof {
            assert(acc.deep_view() =~= Seq::<CommandModel>::empty());
        }
        return Some((acc, i + 2));
    }
    let (first, mut cur) = match parse_command_at(s, i + 1) {
        Some(t) => t,
        None => {
            return None;
        },
    };
    proof {
        lemma_p_cmd_bounds(s@, i + 1);
    }
    acc.push(first);
    loop
        invariant
            i + 1 <= cur <= s@.len(),
            acc@.len() >= 1,
            (match p_cmds_tail(s@, cur as int) {
                Some((cs2, j)) => p_cmds(s@, i as int) == Some((acc.deep_view() + cs2, j)),
                None => p_cmds(s@, i as int) is None,
            }),
        decreases s@.len() - cur,
    {
        if cur >= s.len() {
            return None;
        }
        let c = s[cur];
        if c == ']' {
            proof {
                assert(p_cmds_tail(s@, cur as int) == Some(
                    (Seq::<CommandModel>::empty(), cur + 1),
                ));
                assert(acc.deep_view() + Seq::<CommandModel>::empty() =~= acc.deep_view());
            }
            return Some((acc, cur + 1));
        } else if c == ',' {
            let (next, j) = match parse_command_at(s, cur + 1) {
                Some(t) => t,
                None => {
                    return None;
                },
            };
            proof {
                lemma_p_cmd_bounds(s@, cur + 1);
            }
            let ghost acc_before = acc.deep_view();
            let ghost nextv = next@;
            acc.push(next);
            proof {
                assert(acc.deep_view() =~= acc_before.push(nextv));
                let res = p_cmds_tail(s@, j as int);
                if res is Some {
                    let tk = res->0;
                    assert(p_cmds_tail(s@, cur as int) == Some((seq![nextv] + tk.0, tk.1)));
                    assert(acc_before + (seq![nextv] + tk.0) =~= acc_before.push(nextv) + tk.0);
                }
            }
            cur = j;
        } else {
            return None;
        }
    }
}

/// The configuration object at a position.
fn parse_config_at(s: &Vec<char>, i: usize) -> (r: Option<(Config, usize)>)
    ensures
        match r {
            Some(t) => p_config(s@, i as int) == Some((t.0@, t.1 as int)) && t.1 <= s@.len(),
            None => p_config(s@, i as int) is None,
        },
{
    if i >= s.len() || s[i] != '{' {
        return None;
    }
    let j1 = match expect_lit(s, i + 1, &chars_of("\"safe_mode\":")) {
        Some(j) => j,
        None => {
            return None;
        },
    };
    let (safe_mode, j2) = match parse_bool_at(s, j1) {
        Some(t) => t,
        None => {
            return None;
        },
    };
    let j3 = match expect_lit(s, j2, &chars_of(",\"commands_path\":")) {
        Some(j) => j,
        None => {
            return None;
        },
    };
    let (commands_path, j4) = match parse_opt_at(s, j3) {
        Some(t) => t,
        None => {
            return None;
        },
    };
    if j4 >= s.len() || s[j4] != '}' {
        return None;
    }
    Some((Config { safe_mode, commands_path }, j4 + 1))
}

/// Reads a command file's text: a blank file is the empty list, anything
/// else must be one whole stored array. The text the launcher itself writes
/// always reads back (`lemma_commands_round_trip`).
pub fn parse_commands(text: &str) -> (r: Result<Vec<Command>, CoreError>)
    ensures
        match load_commands_spec(text@) {
            Some(cs) => r matches Ok(v) && v.deep_view() == cs,
            None => r matches Err(e) && e is Persistence,
        },
{
    if crate::text::blank(text) {
        let empty: Vec<Command> = Vec::new();
        proof {
            assert(empty.deep_view() =~= Seq::<CommandModel>::empty());
        }
        return Ok(empty);
    }
    let s = chars_of(text);
    match parse_commands_at(&s, 0) {
        Some((v, j)) => {
            if j == s.len() {
                Ok(v)
            } else {
                Err(CoreError::Persistence("invalid commands file".to_owned()))
            }
        },
        None => Err(CoreError::Persistence("invalid commands file".to_owned())),
    }
}

/// Reads a configuration file's text: one whole stored object. The text the
/// launcher itself writes always reads back (`lemma_config_round_trip`).
pub fn parse_config(text: &str) -> (r: Result<Config, CoreError>)
    ensures
        match load_config_spec(text@) {
            Some(c) => r matches Ok(v) && v@ == c,
            None => r matches Err(e) && e is Persistence,
        },
{
    let s = chars_of(text);
    match parse_config_at(&s, 0) {
        Some((v, j)) => {
            if j == s.len() {
                Ok(v)
            } else {
                Err(CoreError::Persistence("invalid config file".to_owned()))
            }
        },
        None => Err(CoreError::Persistence("invalid config file".to_owned())),
    }
}

} // verus!
