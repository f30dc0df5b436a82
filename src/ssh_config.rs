//! Reading host aliases out of SSH client configuration text.
//!
//! The text is read in two layers. Each physical line is cut into tokens:
//! whatever follows a `#` is a comment; what comes before it, less leading
//! spaces and `=`, is a key running to the next space or `=`, and then,
//! after further spaces and `=`, a value running to the comment or the end
//! of the line. The end of the text ends the last line. Lines without
//! tokens are dropped. The remaining lines are then applied in order:
//! `Host <name>` opens a stanza and maps the name to itself, and the first
//! `Hostname <target>` after it maps the name to the target. `Host`
//! patterns (`*`, `!`, `?`, `,` or a space in the name) name no single host
//! and are passed over. Every other directive is ignored. A line with other
//! than two tokens stops the whole reading with an error.

use crate::host_table::{
    host_entries, host_map_insert, host_map_new, lemma_insert_keeps_names_distinct, names,
    table_insert, Entry, HostMap,
};
use crate::ordered_map::distinct_keys;
use crate::text::{chars_of, eq_folded, push_char, same_folded};
use vstd::prelude::*;

verus! {

/// The tokens of one logical line.
pub type Line = Seq<Seq<char>>;

/// Why configuration text could not be read.
#[derive(Debug)]
pub enum ConfigError {
    /// A line did not hold exactly two tokens; these are its tokens.
    MalformedLine(Vec<String>),
}

/// The views of a vector of strings.
pub open spec fn views(v: Seq<String>) -> Seq<Seq<char>> {
    v.map_values(|s: String| s@)
}

// ---------------------------------------------------------------------------
// Splitting text into lines of tokens

/// Does `c` separate a key from its value?
pub open spec fn is_sep(c: char) -> bool {
    c == ' ' || c == '='
}

/// How many characters of `l` come before its first `#`.
pub open spec fn code_len(l: Seq<char>) -> int
    decreases l.len(),
{
    if l.len() > 0 && l[0] != '#' {
        1 + code_len(l.drop_first())
    } else {
        0
    }
}

/// How many separators `s` starts with.
pub open spec fn lead_seps(s: Seq<char>) -> int
    decreases s.len(),
{
    if s.len() > 0 && is_sep(s[0]) {
        1 + lead_seps(s.drop_first())
    } else {
        0
    }
}

/// How many characters other than separators `s` starts with.
pub open spec fn word_len(s: Seq<char>) -> int
    decreases s.len(),
{
    if s.len() > 0 && !is_sep(s[0]) {
        1 + word_len(s.drop_first())
    } else {
        0
    }
}

/// `s` without its leading separators.
pub open spec fn trim_seps(s: Seq<char>) -> Seq<char> {
    s.skip(lead_seps(s))
}

/// The tokens of one physical line (without its newline): the part before
/// any `#`, less leading separators, is a key running to the next
/// separator, then, after further separators, a value running to the end.
pub open spec fn line_tokens(l: Seq<char>) -> Line {
    let a = trim_seps(l.take(code_len(l)));
    let k = a.take(word_len(a));
    let v = trim_seps(a.skip(word_len(a)));
    if a.len() == 0 {
        Seq::empty()
    } else if v.len() == 0 {
        seq![k]
    } else {
        seq![k, v]
    }
}

/// `lines` with `l` added, unless `l` is empty.
pub open spec fn add_line(lines: Seq<Line>, l: Line) -> Seq<Line> {
    if l.len() == 0 {
        lines
    } else {
        lines.push(l)
    }
}

/// The lines of the physical lines ended so far, and the physical line
/// still open.
pub struct Split {
    pub done: Seq<Line>,
    pub open: Seq<char>,
}

pub open spec fn split(t: Seq<char>) -> Split
    decreases t.len(),
{
    if t.len() == 0 {
        Split { done: Seq::empty(), open: Seq::empty() }
    } else {
        let s = split(t.drop_last());
        if t.last() == '\n' {
            Split { done: add_line(s.done, line_tokens(s.open)), open: Seq::empty() }
        } else {
            Split { done: s.done, open: s.open.push(t.last()) }
        }
    }
}

/// The logical lines of configuration text: the tokens of each physical
/// line that has any; the end of the text ends the last line.
pub open spec fn config_lines(text: Seq<char>) -> Seq<Line> {
    split(text.push('\n')).done
}

/// How far the reading of an open physical line has come: the tokens
/// completed, the token being read, whether the key is still being read,
/// and whether a comment has begun.
struct Partial {
    line: Line,
    token: Seq<char>,
    key: bool,
    skip: bool,
}

/// Where the reading stands after the open part `p` of a physical line.
spec fn partial(p: Seq<char>) -> Partial {
    let skip = code_len(p) < p.len();
    let a = trim_seps(p.take(code_len(p)));
    let n = word_len(a);
    let k = a.take(n);
    let v = trim_seps(a.skip(n));
    if a.len() == 0 {
        Partial { line: Seq::empty(), token: Seq::empty(), key: true, skip }
    } else if n == a.len() {
        if skip {
            Partial { line: seq![a], token: Seq::empty(), key: true, skip }
        } else {
            Partial { line: Seq::empty(), token: a, key: true, skip }
        }
    } else if skip {
        Partial {
            line: if v.len() == 0 {
                seq![k]
            } else {
                seq![k, v]
            },
            token: Seq::empty(),
            key: false,
            skip,
        }
    } else {
        Partial { line: seq![k], token: v, key: false, skip }
    }
}

/// `line` with `token` added, if the token holds anything.
pub open spec fn flush(line: Line, token: Seq<char>) -> Line {
    if token.len() > 0 {
        line.push(token)
    } else {
        line
    }
}

/// One more character, other than a newline, of an open line.
spec fn read_char(s: Partial, c: char) -> Partial {
    if s.skip {
        s
    } else if c == '#' {
        Partial { skip: true, line: flush(s.line, s.token), token: Seq::empty(), ..s }
    } else if s.key && is_sep(c) {
        if s.token.len() > 0 {
            Partial { line: s.line.push(s.token), token: Seq::empty(), key: false, ..s }
        } else {
            s
        }
    } else if is_sep(c) && s.token.len() == 0 {
        s
    } else {
        Partial { token: s.token.push(c), ..s }
    }
}

proof fn lemma_code_len_push(p: Seq<char>, c: char)
    ensures
        0 <= code_len(p) <= p.len(),
        code_len(p.push(c)) == if code_len(p) < p.len() {
            code_len(p)
        } else if c == '#' {
            p.len() as int
        } else {
            p.len() + 1 as int
        },
    decreases p.len(),
{
    if p.len() > 0 {
        assert(p.push(c)[0] == p[0]);
        assert(p.push(c).drop_first() =~= p.drop_first().push(c));
        lemma_code_len_push(p.drop_first(), c);
    } else {
        assert(p.push(c)[0] == c);
        assert(p.push(c).drop_first() =~= p);
    }
}

proof fn lemma_lead_seps_push(s: Seq<char>, c: char)
    ensures
        0 <= lead_seps(s) <= s.len(),
        lead_seps(s.push(c)) == if lead_seps(s) == s.len() && is_sep(c) {
            s.len() + 1 as int
        } else {
            lead_seps(s)
        },
    decreases s.len(),
{
    if s.len() > 0 {
        assert(s.push(c)[0] == s[0]);
        assert(s.push(c).drop_first() =~= s.drop_first().push(c));
        lemma_lead_seps_push(s.drop_first(), c);
    } else {
        assert(s.push(c)[0] == c);
        assert(s.push(c).drop_first() =~= s);
    }
}

proof fn lemma_word_len_push(s: Seq<char>, c: char)
    ensures
        0 <= word_len(s) <= s.len(),
        word_len(s.push(c)) == if word_len(s) == s.len() && !is_sep(c) {
            s.len() + 1 as int
        } else {
            word_len(s)
        },
    decreases s.len(),
{
    if s.len() > 0 {
        assert(s.push(c)[0] == s[0]);
        assert(s.push(c).drop_first() =~= s.drop_first().push(c));
        lemma_word_len_push(s.drop_first(), c);
    } else {
        assert(s.push(c)[0] == c);
        assert(s.push(c).drop_first() =~= s);
    }
}

proof fn lemma_trim_push(s: Seq<char>, c: char)
    ensures
        trim_seps(s.push(c)) == if trim_seps(s).len() == 0 && is_sep(c) {
            Seq::<char>::empty()
        } else {
            trim_seps(s).push(c)
        },
{
    lemma_lead_seps_push(s, c);
    if trim_seps(s).len() == 0 && is_sep(c) {
        assert(trim_seps(s.push(c)) =~= Seq::<char>::empty());
    } else {
        assert(trim_seps(s.push(c)) =~= trim_seps(s).push(c));
    }
}

proof fn lemma_trim_len(s: Seq<char>)
    ensures
        trim_seps(s).len() == 0 <==> lead_seps(s) == s.len(),
        trim_seps(s).len() > 0 ==> !is_sep(trim_seps(s)[0]),
    decreases s.len(),
{
    lemma_lead_seps_bounds(s);
    if s.len() > 0 && is_sep(s[0]) {
        lemma_trim_len(s.drop_first());
        let t = s.drop_first();
        lemma_lead_seps_bounds(t);
        assert(lead_seps(s) == 1 + lead_seps(t));
        assert forall|j: int| 0 <= j < trim_seps(s).len() implies trim_seps(s)[j] == trim_seps(t)[j] by {
            assert(s[lead_seps(s) + j] == t[lead_seps(t) + j]);
        }
        assert(trim_seps(s) =~= trim_seps(t));
    }
}

proof fn lemma_lead_seps_bounds(s: Seq<char>)
    ensures
        0 <= lead_seps(s) <= s.len(),
    decreases s.len(),
{
    if s.len() > 0 {
        lemma_lead_seps_bounds(s.drop_first());
    }
}

/// Reading one more character moves the partial state as `read_char` says.
proof fn lemma_partial_push(p: Seq<char>, c: char)
    requires
        c != '\n',
    ensures
        partial(p.push(c)) == read_char(partial(p), c),
{
    let q = p.push(c);
    lemma_code_len_push(p, c);
    let cp = p.take(code_len(p));
    let a = trim_seps(cp);
    lemma_trim_len(cp);
    lemma_word_len_push(a, c);
    let n = word_len(a);
    let k = a.take(n);
    let v = trim_seps(a.skip(n));
    let e = Seq::<char>::empty();
    let el = Seq::<Seq<char>>::empty();
    assert(trim_seps(e) =~= e);
    let pp = partial(p);
    let qq = partial(q);
    if code_len(p) < p.len() {
        assert(q.take(code_len(q)) =~= cp);
    } else if c == '#' {
        assert(q.take(code_len(q)) =~= cp);
        if a.len() > 0 {
            if n == a.len() {
                assert(el.push(a) =~= seq![a]);
            } else if v.len() > 0 {
                assert(seq![k].push(v) =~= seq![k, v]);
            }
        }
    } else {
        assert(q.take(code_len(q)) =~= cp.push(c));
        lemma_trim_push(cp, c);
        let a2 = trim_seps(cp.push(c));
        if a.len() == 0 && is_sep(c) {
            assert(a2 =~= e);
        } else if a.len() == 0 {
            assert(a2 =~= seq![c]);
            assert(word_len(a2) == 1);
            assert(e.push(c) =~= seq![c]);
        } else {
            assert(a2 == a.push(c));
            assert(a2.take(n) =~= k);
            assert(a2.skip(n) =~= a.skip(n).push(c));
            lemma_trim_push(a.skip(n), c);
            if n == a.len() {
                assert(a.skip(n) =~= e);
                assert(k =~= a);
                if is_sep(c) {
                    assert(trim_seps(a2.skip(n)) =~= e);
                    assert(qq == (Partial { line: seq![a], token: e, key: false, skip: false }));
                    assert(el.push(a) =~= seq![a]);
                } else {
                    assert(word_len(a2) == a2.len());
                    assert(qq == (Partial { line: el, token: a2, key: true, skip: false }));
                }
            } else {
                assert(word_len(a2) == n);
                assert(qq == (Partial {
                    line: seq![k],
                    token: trim_seps(a.skip(n).push(c)),
                    key: false,
                    skip: false,
                }));
                assert(pp == (Partial { line: seq![k], token: v, key: false, skip: false }));
                if is_sep(c) && v.len() == 0 {
                    assert(trim_seps(a.skip(n).push(c)) =~= e);
                    assert(v =~= e);
                } else {
                    assert(trim_seps(a.skip(n).push(c)) == v.push(c));
                }
            }
        }
    }
}

/// The partial state of a line flushed at its end gives its tokens.
proof fn lemma_partial_flush(p: Seq<char>)
    ensures
        flush(partial(p).line, partial(p).token) == line_tokens(p),
        partial(Seq::<char>::empty()) == (Partial {
            line: Seq::empty(),
            token: Seq::empty(),
            key: true,
            skip: false,
        }),
{
    let a = trim_seps(p.take(code_len(p)));
    let n = word_len(a);
    lemma_word_len_push(a, ' ');
    if a.len() > 0 && n == a.len() {
        assert(a.take(n) =~= a);
        assert(a.skip(n) =~= Seq::<char>::empty());
        assert(trim_seps(Seq::<char>::empty()) =~= Seq::<char>::empty());
    }
    let e = Seq::<char>::empty();
    assert(e.take(code_len(e)) =~= e);
    assert(trim_seps(e) =~= e);
}

// ---------------------------------------------------------------------------
// Applying lines to the table

/// The table built so far and the stanza that a `Hostname` would attach to
/// (empty when there is none).
pub struct Stanzas {
    pub table: Seq<Entry>,
    pub stanza: Seq<char>,
}

pub open spec fn host_word() -> Seq<char> {
    seq!['h', 'o', 's', 't']
}

pub open spec fn hostname_word() -> Seq<char> {
    seq!['h', 'o', 's', 't', 'n', 'a', 'm', 'e']
}

/// Characters that make a `Host` value a pattern rather than one host.
pub open spec fn is_pattern_char(c: char) -> bool {
    c == '*' || c == '!' || c == '?' || c == ',' || c == ' '
}

pub open spec fn is_pattern(v: Seq<char>) -> bool {
    exists|i: int| 0 <= i < v.len() && is_pattern_char(#[trigger] v[i])
}

/// Apply a two-token line.
pub open spec fn apply_line(b: Stanzas, l: Line) -> Stanzas {
    if same_folded(l[0], host_word()) {
        if is_pattern(l[1]) {
            Stanzas { table: b.table, stanza: Seq::empty() }
        } else {
            Stanzas { table: table_insert(b.table, l[1], l[1]), stanza: l[1] }
        }
    } else if same_folded(l[0], hostname_word()) && b.stanza.len() > 0 {
        Stanzas { table: table_insert(b.table, b.stanza, l[1]), stanza: Seq::empty() }
    } else {
        b
    }
}

pub open spec fn build_start() -> Stanzas {
    Stanzas { table: Seq::empty(), stanza: Seq::empty() }
}

/// Apply `lines` in order; the first line without exactly two tokens is the
/// error.
pub open spec fn build(lines: Seq<Line>) -> Result<Stanzas, Line>
    decreases lines.len(),
{
    if lines.len() == 0 {
        Ok(build_start())
    } else {
        match build(lines.drop_last()) {
            Err(l) => Err(l),
            Ok(b) => if lines.last().len() != 2 {
                Err(lines.last())
            } else {
                Ok(apply_line(b, lines.last()))
            },
        }
    }
}

/// The table that configuration text describes, or the tokens of its first
/// malformed line.
pub open spec fn parse_result(text: Seq<char>) -> Result<Seq<Entry>, Line> {
    match build(config_lines(text)) {
        Ok(b) => Ok(b.table),
        Err(l) => Err(l),
    }
}

// ---------------------------------------------------------------------------
// Lemmas

/// Reading more text only adds lines after those already completed.
proof fn lemma_split_extend(t: Seq<char>, j: int)
    requires
        0 <= j <= t.len(),
    ensures
        split(t.take(j)).done.len() <= split(t).done.len(),
        split(t).done.take(split(t.take(j)).done.len() as int) == split(t.take(j)).done,
    decreases t.len() - j,
{
    if j == t.len() {
        assert(t.take(j) =~= t);
        assert(split(t).done.take(split(t).done.len() as int) =~= split(t).done);
    } else {
        lemma_split_extend(t, j + 1);
        assert(t.take(j + 1).drop_last() =~= t.take(j));
        let a = split(t.take(j)).done;
        let b = split(t.take(j + 1)).done;
        assert(b.take(a.len() as int) =~= a);
        assert(split(t).done.take(a.len() as int) =~= b.take(a.len() as int));
    }
}

/// Once a prefix of the lines fails, all of them fail the same way.
proof fn lemma_build_error_persists(lines: Seq<Line>, k: int)
    requires
        0 <= k <= lines.len(),
        build(lines.take(k)) is Err,
    ensures
        build(lines) == build(lines.take(k)),
    decreases lines.len() - k,
{
    if k == lines.len() {
        assert(lines.take(k) =~= lines);
    } else {
        assert(lines.take(k + 1).drop_last() =~= lines.take(k));
        lemma_build_error_persists(lines, k + 1);
    }
}

/// The literal names that `Host` lines give, in order, repeats included.
pub open spec fn host_names(lines: Seq<Line>) -> Seq<Seq<char>>
    decreases lines.len(),
{
    if lines.len() == 0 {
        Seq::empty()
    } else {
        let l = lines.last();
        let rest = host_names(lines.drop_last());
        if l.len() == 2 && same_folded(l[0], host_word()) && !is_pattern(l[1]) {
            rest.push(l[1])
        } else {
            rest
        }
    }
}

/// Each element of `s` once, at the place where it first appears.
pub open spec fn first_appearances(s: Seq<Seq<char>>) -> Seq<Seq<char>>
    decreases s.len(),
{
    if s.len() == 0 {
        Seq::empty()
    } else {
        let d = first_appearances(s.drop_last());
        if d.contains(s.last()) {
            d
        } else {
            d.push(s.last())
        }
    }
}

proof fn lemma_build_names(lines: Seq<Line>)
    requires
        build(lines) is Ok,
    ensures
        names(build(lines)->Ok_0.table) == first_appearances(host_names(lines)),
        distinct_keys(names(build(lines)->Ok_0.table)),
        build(lines)->Ok_0.stanza.len() > 0 ==> names(build(lines)->Ok_0.table).contains(
            build(lines)->Ok_0.stanza,
        ),
    decreases lines.len(),
{
    if lines.len() == 0 {
        assert(names(Seq::<Entry>::empty()) =~= Seq::<Seq<char>>::empty());
    } else {
        let prev = lines.drop_last();
        lemma_build_names(prev);
        let b = build(prev)->Ok_0;
        let l = lines.last();
        let t = b.table;
        assert(l.len() == 2);
        if same_folded(l[0], host_word()) {
            if !is_pattern(l[1]) {
                let hn = host_names(lines);
                assert(hn == host_names(prev).push(l[1]));
                assert(hn.drop_last() =~= host_names(prev));
                lemma_insert_keeps_names_distinct(t, l[1], l[1]);
                if names(t).contains(l[1]) {
                    assert(names(table_insert(t, l[1], l[1])) =~= names(t));
                } else {
                    assert(names(table_insert(t, l[1], l[1])) =~= names(t).push(l[1]));
                }
            }
        } else if same_folded(l[0], hostname_word()) && b.stanza.len() > 0 {
            lemma_insert_keeps_names_distinct(t, b.stanza, l[1]);
            assert(names(table_insert(t, b.stanza, l[1])) =~= names(t));
        }
    }
}

/// The table lists each literal `Host` name once, in the order in which the
/// names first appear in the text.
pub proof fn lemma_table_order(text: Seq<char>)
    requires
        parse_result(text) is Ok,
    ensures
        names(parse_result(text)->Ok_0) == first_appearances(host_names(config_lines(text))),
        distinct_keys(names(parse_result(text)->Ok_0)),
{
    lemma_build_names(config_lines(text));
}

proof fn lemma_build_ok(lines: Seq<Line>)
    requires
        forall|j: int| 0 <= j < lines.len() ==> (#[trigger] lines[j]).len() == 2,
    ensures
        build(lines) is Ok,
    decreases lines.len(),
{
    if lines.len() > 0 {
        lemma_build_ok(lines.drop_last());
    }
}

/// A logical line with other than two tokens makes the whole text fail;
/// when the lines before it are well formed, it is the reported line.
pub proof fn lemma_malformed_line_fails(text: Seq<char>, k: int)
    requires
        0 <= k < config_lines(text).len(),
        config_lines(text)[k].len() != 2,
    ensures
        parse_result(text) is Err,
        (forall|j: int| 0 <= j < k ==> (#[trigger] config_lines(text)[j]).len() == 2)
            ==> parse_result(text) == Err::<Seq<Entry>, Line>(config_lines(text)[k]),
    decreases k,
{
    let lines = config_lines(text);
    if exists|j: int| 0 <= j < k && (#[trigger] lines[j]).len() != 2 {
        let j = choose|j: int| 0 <= j < k && (#[trigger] lines[j]).len() != 2;
        lemma_malformed_line_fails(text, j);
    } else {
        let pre = lines.take(k);
        lemma_build_ok(pre);
        assert(lines.take(k + 1).drop_last() =~= pre);
        lemma_build_error_persists(lines, k + 1);
    }
}

/// Configuration text parses exactly when each of its logical lines has two
/// tokens (lines without tokens are not logical lines).
pub proof fn lemma_parse_ok_iff_pairs(text: Seq<char>)
    ensures
        parse_result(text) is Ok <==> (forall|j: int|
            0 <= j < config_lines(text).len() ==> (#[trigger] config_lines(text)[j]).len() == 2),
{
    let lines = config_lines(text);
    if forall|j: int| 0 <= j < lines.len() ==> (#[trigger] lines[j]).len() == 2 {
        lemma_build_ok(lines);
    } else {
        let k = choose|k: int| 0 <= k < lines.len() && (#[trigger] lines[k]).len() != 2;
        lemma_malformed_line_fails(text, k);
    }
}

// ---------------------------------------------------------------------------
// The parser

/// Does `v` hold a character that makes it a pattern?
fn has_pattern_char(v: &String) -> (r: bool)
    ensures
        r == is_pattern(v@),
{
    let cs = chars_of(v.as_str());
    let mut i: usize = 0;
    while i < cs.len()
        invariant
            cs@ == v@,
            i <= cs@.len(),
            forall|j: int| 0 <= j < i ==> !is_pattern_char(#[trigger] cs@[j]),
        decreases cs@.len() - i,
    {
        let c = cs[i];
        if c == '*' || c == '!' || c == '?' || c == ',' || c == ' ' {
            return true;
        }
        i = i + 1;
    }
    false
}

/// Parse SSH configuration text into a table of host aliases in order of
/// first appearance.
pub fn parse_ssh_config(config: &str) -> (r: Result<HostMap, ConfigError>)
    ensures
        r is Ok <==> parse_result(config@) is Ok,
        r matches Ok(m) ==> parse_result(config@) == Ok::<Seq<Entry>, Line>(host_entries(m)),
        r matches Err(ConfigError::MalformedLine(toks)) ==> parse_result(config@) == Err::<
            Seq<Entry>,
            Line,
        >(views(toks@)),
{
    let mut text = chars_of(config);
    text.push('\n');
    let ghost full = config@.push('\n');
    let mut map = host_map_new();
    let mut token = String::new();
    let mut line: Vec<String> = Vec::new();
    let mut skip_line = false;
    let mut stanza = String::new();
    let mut key = true;
    let mut i: usize = 0;
    proof {
        reveal_strlit("host");
        reveal_strlit("hostname");
        assert(full.take(0) =~= Seq::<char>::empty());
        assert(views(line@) =~= Seq::<Seq<char>>::empty());
        lemma_partial_flush(Seq::<char>::empty());
    }
    while i < text.len()
        invariant
            text@ == full,
            full == config@.push('\n'),
            i <= text@.len(),
            partial(split(full.take(i as int)).open) == (Partial {
                line: views(line@),
                token: token@,
                key,
                skip: skip_line,
            }),
            build(split(full.take(i as int)).done) == Ok::<Stanzas, Line>(
                Stanzas { table: host_entries(map), stanza: stanza@ },
            ),
            "host"@ == host_word(),
            "hostname"@ == hostname_word(),
        decreases text@.len() - i,
    {
        let c = text[i];
        let ghost before = split(full.take(i as int));
        let ghost pl = partial(before.open);
        assert(full.take(i + 1).drop_last() =~= full.take(i as int));
        assert(full.take(i + 1).last() == c);
        if c == '\n' {
            proof {
                lemma_partial_flush(before.open);
            }
            skip_line = false;
            key = true;
            if !token.as_str().is_empty() {
                line.push(token);
                token = String::new();
            }
            assert(views(line@) =~= flush(pl.line, pl.token));
            if line.len() == 0 {
            } else if line.len() != 2 {
                proof {
                    let lines = split(full.take(i + 1)).done;
                    assert(lines.drop_last() =~= before.done);
                    lemma_split_extend(full, i + 1);
                    assert(full.take(full.len() as int) =~= full);
                    let all = split(full).done;
                    assert(all.take(lines.len() as int) == lines);
                    lemma_build_error_persists(all, lines.len() as int);
                }
                return Err(ConfigError::MalformedLine(line));
            } else {
                let ghost b = Stanzas { table: host_entries(map), stanza: stanza@ };
                let ghost l = views(line@);
                let d = line[0].as_str();
                if eq_folded(d, "host") {
                    if has_pattern_char(&line[1]) {
                        stanza = String::new();
                    } else {
                        stanza = line[1].clone();
                        host_map_insert(&mut map, line[1].clone(), line[1].clone());
                    }
                } else if eq_folded(d, "hostname") {
                    if !stanza.as_str().is_empty() {
                        host_map_insert(&mut map, stanza.clone(), line[1].clone());
                        stanza = String::new();
                    }
                }
                assert(Stanzas { table: host_entries(map), stanza: stanza@ } == apply_line(b, l));
                line = Vec::new();
                proof {
                    let lines = split(full.take(i + 1)).done;
                    assert(lines.drop_last() =~= before.done);
                }
            }
            assert(views(line@) =~= Seq::<Seq<char>>::empty());
            assert(token@ =~= Seq::<char>::empty());
            assert(split(full.take(i + 1)).open == Seq::<char>::empty());
        } else {
            proof {
                lemma_partial_push(before.open, c);
                assert(split(full.take(i + 1)).open == before.open.push(c));
            }
            if skip_line {
            } else if c == '#' {
                skip_line = true;
                if !token.as_str().is_empty() {
                    line.push(token);
                    token = String::new();
                }
                assert(views(line@) =~= flush(pl.line, pl.token));
                assert(token@ =~= Seq::<char>::empty());
            } else if key && (c == ' ' || c == '=') {
                if !token.as_str().is_empty() {
                    line.push(token);
                    token = String::new();
                    key = false;
                    assert(views(line@) =~= pl.line.push(pl.token));
                }
            } else if (c == ' ' || c == '=') && token.as_str().is_empty() {
            } else {
                push_char(&mut token, c);
            }
        }
        i = i + 1;
    }
    assert(full.take(i as int) =~= full);
    Ok(map)
}

} // verus!
