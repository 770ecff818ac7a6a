//! The command-line parser: splitting a line into words with quotes,
//! escapes, `~` expansion and `#` comments, and deciding whether a line is
//! complete or needs a continuation line.

use vstd::prelude::*;
use crate::text::{
    append_chars, chars_of, is_space_char, string_of, trim_end_chars, trimmed, trimmed_end,
    trimmed_start,
};

verus! {

/// Quote and escape state while scanning a line for completeness.
pub struct QuoteScan {
    pub single: bool,
    pub double: bool,
    pub escaped: bool,
}

/// One step of the completeness scan: a backslash escapes the next
/// character; a quote of either kind toggles its state unless it stands
/// inside quotes of the other kind.
pub open spec fn scan_step(st: QuoteScan, c: char) -> QuoteScan {
    if st.escaped {
        QuoteScan { escaped: false, ..st }
    } else if c == '\\' {
        QuoteScan { escaped: true, ..st }
    } else if c == '\'' && !st.double {
        QuoteScan { single: !st.single, ..st }
    } else if c == '"' && !st.single {
        QuoteScan { double: !st.double, ..st }
    } else {
        st
    }
}

/// The completeness scan state after the characters of `s`.
pub open spec fn scan(s: Seq<char>) -> QuoteScan
    decreases s.len(),
{
    if s.len() == 0 {
        QuoteScan { single: false, double: false, escaped: false }
    } else {
        scan_step(scan(s.drop_last()), s.last())
    }
}

/// The number of backslashes at the end of `s`.
pub open spec fn trailing_backslashes(s: Seq<char>) -> nat
    decreases s.len(),
{
    if s.len() > 0 && s.last() == '\\' {
        trailing_backslashes(s.drop_last()) + 1
    } else {
        0
    }
}

/// A line is complete when no quote is left open and it does not end in
/// an odd number of backslashes (a line continuation).
pub open spec fn command_complete(s: Seq<char>) -> bool {
    let st = scan(s);
    &&& !st.single
    &&& !st.double
    &&& trailing_backslashes(s) % 2 == 0
}

/// Whether `input` is a complete command line (see [`command_complete`]).
pub fn is_command_complete(input: &str) -> (r: bool)
    ensures
        r == command_complete(input@),
{
    let s = chars_of(input);
    let mut single = false;
    let mut double = false;
    let mut escaped = false;
    let mut i: usize = 0;
    while i < s.len()
        invariant
            i <= s.len(),
            scan(s@.take(i as int)) == (QuoteScan { single, double, escaped }),
        decreases s.len() - i,
    {
        let ch = s[i];
        assert(s@.take(i + 1).drop_last() =~= s@.take(i as int));
        if escaped {
            escaped = false;
        } else if ch == '\\' {
            escaped = true;
        } else if ch == '\'' && !double {
            single = !single;
        } else if ch == '"' && !single {
            double = !double;
        }
        i = i + 1;
    }
    assert(s@.take(s.len() as int) =~= s@);
    if single || double {
        return false;
    }
    let mut k: usize = s.len();
    while k > 0 && s[k - 1] == '\\'
        invariant
            k <= s.len(),
            trailing_backslashes(s@) == trailing_backslashes(s@.take(k as int)) + (s.len() - k),
        decreases k,
    {
        assert(s@.take(k as int).drop_last() =~= s@.take(k - 1));
        k = k - 1;
    }
    let count: usize = s.len() - k;
    assert(trailing_backslashes(s@.take(k as int)) == 0) by {
        if k > 0 {
            assert(s@.take(k as int).last() == s@[k - 1]);
        }
    }
    count % 2 == 0
}

/// The text of a line once a continuation line has been read after it:
/// a newline, then the continuation without its trailing whitespace.
pub open spec fn continued(input: Seq<char>, extra: Seq<char>) -> Seq<char> {
    input.push('\n') + trimmed_end(extra)
}

/// Joins a continuation line `extra` to the incomplete `input`.
pub fn join_continuation(input: &str, extra: &str) -> (r: String)
    ensures
        r@ == continued(input@, extra@),
{
    let mut v = chars_of(input);
    v.push('\n');
    let e = chars_of(extra);
    let t = trim_end_chars(&e);
    append_chars(&mut v, &t);
    string_of(&v)
}

/// Word-splitting state: the finished words, the word being built, the
/// quote states, and whether the next character is taken literally.
pub struct LexState {
    pub words: Seq<Seq<char>>,
    pub current: Seq<char>,
    pub single: bool,
    pub double: bool,
    pub escaped: bool,
}

/// The character that a backslash sequence inside quotes stands for, when
/// the character after the backslash is `n`: `\n`, `\t`, `\r`, `\\`, and the
/// quote character of the quotes it stands in.
pub open spec fn quoted_escape(n: char, double: bool) -> Option<char> {
    if n == 'n' {
        Some('\n')
    } else if n == 't' {
        Some('\t')
    } else if n == 'r' {
        Some('\r')
    } else if n == '\\' {
        Some('\\')
    } else if n == '"' && double {
        Some('"')
    } else if n == '\'' && !double {
        Some('\'')
    } else {
        None
    }
}

/// One step of word splitting at position `i` of `s` (which must be a
/// position of `s`): the position of the next step and the new state;
/// `home` is what `~` at the start of a word expands to (`None`: `~` stays
/// as it is).
///
/// - After an escaping backslash, the character is taken literally.
/// - `~` at the start of a word becomes `home`; elsewhere it is dropped.
/// - A space or tab outside quotes ends the current word, if any.
/// - `#` outside quotes at the start of a word ends the line: the next
///   position is the end of the line.
/// - `"` outside single quotes and `'` outside double quotes toggle quoting.
/// - Inside quotes, `\` followed by a known escape stands for it (both are
///   consumed); followed by another character it makes that character
///   literal; at the end of the line it stays a backslash.
/// - Outside quotes, `\` makes the next character literal.
/// - Any other character is added to the current word.
pub open spec fn lex_step(s: Seq<char>, i: int, st: LexState, home: Option<Seq<char>>) -> (
    int,
    LexState,
) {
    let c = s[i];
    if st.escaped {
        (i + 1, LexState { current: st.current.push(c), escaped: false, ..st })
    } else if c == '~' {
        if st.current.len() == 0 {
            let cur = match home {
                Some(h) => h,
                None => seq!['~'],
            };
            (i + 1, LexState { current: cur, ..st })
        } else {
            (i + 1, st)
        }
    } else if (c == ' ' || c == '\t') && !st.single && !st.double {
        if st.current.len() > 0 {
            (i + 1, LexState { words: st.words.push(st.current), current: seq![], ..st })
        } else {
            (i + 1, st)
        }
    } else if c == '#' && !st.single && !st.double && st.current.len() == 0 {
        (s.len() as int, st)
    } else if c == '"' && !st.single {
        (i + 1, LexState { double: !st.double, ..st })
    } else if c == '\'' && !st.double {
        (i + 1, LexState { single: !st.single, ..st })
    } else if c == '\\' {
        if st.single || st.double {
            if i + 1 < s.len() {
                match quoted_escape(s[i + 1], st.double) {
                    Some(e) => (i + 2, LexState { current: st.current.push(e), ..st }),
                    None => (i + 1, LexState { escaped: true, ..st }),
                }
            } else {
                (i + 1, LexState { current: st.current.push('\\'), ..st })
            }
        } else {
            (i + 1, LexState { escaped: true, ..st })
        }
    } else {
        (i + 1, LexState { current: st.current.push(c), ..st })
    }
}

/// The word-splitting state after the characters of `s` from position `i`
/// on, starting from `st` (see [`lex_step`]).
pub open spec fn lex(s: Seq<char>, i: int, st: LexState, home: Option<Seq<char>>) -> LexState
    decreases s.len() - i,
{
    if i < 0 || i >= s.len() {
        st
    } else {
        let (j, next) = lex_step(s, i, st, home);
        if j <= i {
            st
        } else {
            lex(s, j, next, home)
        }
    }
}

/// The state that word splitting starts from.
pub open spec fn lex_start() -> LexState {
    LexState { words: seq![], current: seq![], single: false, double: false, escaped: false }
}

/// The words of a line: what [`lex`] built, with the last word added
/// (a dangling escaping backslash stays as a backslash).
pub open spec fn words_of(s: Seq<char>, home: Option<Seq<char>>) -> Seq<Seq<char>> {
    let st = lex(s, 0, lex_start(), home);
    let last = if st.escaped {
        st.current.push('\\')
    } else {
        st.current
    };
    if last.len() > 0 {
        st.words.push(last)
    } else {
        st.words
    }
}

/// The command name and its arguments: the first word and the others; an
/// empty name and no arguments when the line holds no word.
pub open spec fn split_command(s: Seq<char>, home: Option<Seq<char>>) -> (
    Seq<char>,
    Seq<Seq<char>>,
) {
    let w = words_of(s, home);
    if w.len() == 0 {
        (seq![], seq![])
    } else {
        (w[0], w.drop_first())
    }
}

/// The views of a vector of strings.
pub open spec fn string_views(v: Seq<String>) -> Seq<Seq<char>> {
    v.map_values(|s: String| s@)
}

/// The views of a vector of character vectors.
pub open spec fn char_vec_views(v: Seq<Vec<char>>) -> Seq<Seq<char>> {
    v.map_values(|s: Vec<char>| s@)
}

fn quoted_escape_exec(n: char, double: bool) -> (r: Option<char>)
    ensures
        r == quoted_escape(n, double),
{
    if n == 'n' {
        Some('\n')
    } else if n == 't' {
        Some('\t')
    } else if n == 'r' {
        Some('\r')
    } else if n == '\\' {
        Some('\\')
    } else if n == '"' && double {
        Some('"')
    } else if n == '\'' && !double {
        Some('\'')
    } else {
        None
    }
}

/// Splits a complete command line into its command name and arguments
/// (see [`split_command`]); `home` is what `~` at the start of a word
/// expands to.
pub fn parse_line(input: &str, home: Option<&str>) -> (r: (String, Vec<String>))
    ensures
        (r.0@, string_views(r.1@)) == split_command(
            input@,
            match home {
                Some(h) => Some(h@),
                None => None,
            },
        ),
{
    let ghost home_view: Option<Seq<char>> = match home {
        Some(h) => Some(h@),
        None => None,
    };
    let s = chars_of(input);
    let home_chars: Option<Vec<char>> = match home {
        Some(h) => Some(chars_of(h)),
        None => None,
    };
    let mut words: Vec<Vec<char>> = Vec::new();
    let mut current: Vec<char> = Vec::new();
    let mut single = false;
    let mut double = false;
    let mut escaped = false;
    let mut i: usize = 0;
    assert(char_vec_views(words@) =~= seq![]);
    while i < s.len()
        invariant_except_break
            i <= s.len(),
        invariant
            home_chars matches Some(h) ==> home_view == Some(h@),
            home_chars is None ==> home_view is None,
            lex(
                s@,
                i as int,
                LexState {
                    words: char_vec_views(words@),
                    current: current@,
                    single,
                    double,
                    escaped,
                },
                home_view,
            ) == lex(s@, 0, lex_start(), home_view),
        ensures
            lex(
                s@,
                i as int,
                LexState {
                    words: char_vec_views(words@),
                    current: current@,
                    single,
                    double,
                    escaped,
                },
                home_view,
            ) == (LexState {
                words: char_vec_views(words@),
                current: current@,
                single,
                double,
                escaped,
            }),
            lex(
                s@,
                i as int,
                LexState {
                    words: char_vec_views(words@),
                    current: current@,
                    single,
                    double,
                    escaped,
                },
                home_view,
            ) == lex(s@, 0, lex_start(), home_view),
        decreases s.len() - i,
    {
        let ch = s[i];
        if escaped {
            current.push(ch);
            escaped = false;
            i = i + 1;
        } else if ch == '~' {
            if current.len() == 0 {
                match &home_chars {
                    Some(h) => {
                        current = h.clone();
                        assert(current@ =~= h@);
                    },
                    None => {
                        current.push('~');
                        assert(current@ =~= seq!['~']);
                    },
                }
            }
            i = i + 1;
        } else if (ch == ' ' || ch == '\t') && !single && !double {
            if current.len() > 0 {
                let ghost before = words@;
                let w = current;
                words.push(w);
                current = Vec::new();
                assert(char_vec_views(words@) =~= char_vec_views(before).push(w@));
                assert(current@ =~= seq![]);
            }
            i = i + 1;
        } else if ch == '#' && !single && !double && current.len() == 0 {
            let ghost st = LexState {
                words: char_vec_views(words@),
                current: current@,
                single,
                double,
                escaped,
            };
            assert(lex(s@, s.len() as int, st, home_view) == st);
            break;
        } else if ch == '"' && !single {
            double = !double;
            i = i + 1;
        } else if ch == '\'' && !double {
            single = !single;
            i = i + 1;
        } else if ch == '\\' {
            if single || double {
                if i + 1 < s.len() {
                    match quoted_escape_exec(s[i + 1], double) {
                        Some(e) => {
                            current.push(e);
                            i = i + 2;
                        },
                        None => {
                            escaped = true;
                            i = i + 1;
                        },
                    }
                } else {
                    current.push('\\');
                    i = i + 1;
                }
            } else {
                escaped = true;
                i = i + 1;
            }
        } else {
            current.push(ch);
            i = i + 1;
        }
    }
    if escaped {
        current.push('\\');
    }
    if current.len() > 0 {
        let ghost before = words@;
        let w = current;
        words.push(w);
        assert(char_vec_views(words@) =~= char_vec_views(before).push(w@));
    }
    let ghost all = char_vec_views(words@);
    assert(all == words_of(input@, home_view));
    if words.len() == 0 {
        let r = (String::new(), Vec::new());
        assert(string_views(r.1@) =~= seq![]);
        return r;
    }
    let cmd = string_of(&words[0]);
    let mut args: Vec<String> = Vec::new();
    let mut k: usize = 1;
    while k < words.len()
        invariant
            1 <= k <= words.len(),
            all == char_vec_views(words@),
            string_views(args@) =~= all.subrange(1, k as int),
        decreases words.len() - k,
    {
        let a = string_of(&words[k]);
        let ghost before = args@;
        args.push(a);
        assert(string_views(args@) =~= string_views(before).push(a@));
        assert(all.subrange(1, k as int).push(all[k as int]) =~= all.subrange(1, k + 1));
        k = k + 1;
    }
    assert(all.subrange(1, words.len() as int) =~= all.drop_first());
    (cmd, args)
}

} // verus!

verus! {

/// A state whose finished words are all non-empty.
pub open spec fn words_nonempty(st: LexState) -> bool {
    forall|k: int| 0 <= k < st.words.len() ==> #[trigger] st.words[k].len() > 0
}

proof fn lemma_lex_keeps_words_nonempty(
    s: Seq<char>,
    i: int,
    st: LexState,
    home: Option<Seq<char>>,
)
    requires
        words_nonempty(st),
    ensures
        words_nonempty(lex(s, i, st, home)),
    decreases s.len() - i,
{
    if 0 <= i < s.len() {
        let (j, next) = lex_step(s, i, st, home);
        if j > i {
            assert(words_nonempty(next)) by {
                assert forall|k: int| 0 <= k < next.words.len() implies #[trigger] next.words[k].len() > 0 by {
                    if k < st.words.len() {
                        assert(next.words[k] == st.words[k]);
                    }
                }
            }
            lemma_lex_keeps_words_nonempty(s, j, next, home);
        }
    }
}

/// No word of a command line is empty: the command name is empty exactly
/// when the line holds no word, and then there are no arguments.
pub proof fn lemma_words_are_nonempty(s: Seq<char>, home: Option<Seq<char>>)
    ensures
        forall|k: int|
            0 <= k < split_command(s, home).1.len() ==> #[trigger] split_command(
                s,
                home,
            ).1[k].len() > 0,
        split_command(s, home).0.len() == 0 ==> split_command(s, home).1.len() == 0,
        split_command(s, home).0.len() == 0 <==> words_of(s, home).len() == 0,
{
    lemma_lex_keeps_words_nonempty(s, 0, lex_start(), home);
    let w = words_of(s, home);
    assert forall|k: int| 0 <= k < w.len() implies #[trigger] w[k].len() > 0 by {
        let st = lex(s, 0, lex_start(), home);
        if k < st.words.len() {
            assert(w[k] == st.words[k]);
        }
    }
    if w.len() > 0 {
        assert(w[0].len() > 0);
        assert forall|k: int| 0 <= k < w.drop_first().len() implies #[trigger] w.drop_first()[k].len() > 0 by {
            assert(w.drop_first()[k] == w[k + 1]);
        }
    }
}

} // verus!

verus! {

proof fn lemma_lex_shift(p: Seq<char>, t: Seq<char>, i: int, st: LexState, home: Option<Seq<char>>)
    requires
        0 <= i,
    ensures
        lex(p + t, p.len() + i, st, home) == lex(t, i, st, home),
    decreases t.len() - i,
{
    let u = p + t;
    if i < t.len() {
        assert(u[p.len() + i] == t[i]);
        if i + 1 < t.len() {
            assert(u[p.len() + i + 1] == t[i + 1]);
        }
        let (j, next) = lex_step(t, i, st, home);
        let (ju, nextu) = lex_step(u, p.len() + i, st, home);
        assert(ju == p.len() + j && nextu == next);
        if j > i {
            lemma_lex_shift(p, t, j, next, home);
        }
    }
}

proof fn lemma_lex_words_prefix(
    t: Seq<char>,
    i: int,
    st: LexState,
    w: Seq<Seq<char>>,
    home: Option<Seq<char>>,
)
    ensures
        lex(t, i, LexState { words: w + st.words, ..st }, home) == (LexState {
            words: w + lex(t, i, st, home).words,
            ..lex(t, i, st, home)
        }),
    decreases t.len() - i,
{
    let wst = LexState { words: w + st.words, ..st };
    if 0 <= i < t.len() {
        let (j, next) = lex_step(t, i, st, home);
        let (jw, nextw) = lex_step(t, i, wst, home);
        assert(jw == j);
        assert(nextw == LexState { words: w + next.words, ..next }) by {
            assert(w + st.words.push(st.current) =~= (w + st.words).push(st.current));
        }
        if j > i {
            lemma_lex_words_prefix(t, j, next, w, home);
        }
    } else {
        assert(wst == LexState { words: w + st.words, ..st });
    }
}

/// A state outside quotes, not escaping, and between words.
pub open spec fn at_word_boundary(st: LexState) -> bool {
    !st.single && !st.double && !st.escaped && st.current.len() == 0
}

proof fn lemma_lex_comment(
    s: Seq<char>,
    t: Seq<char>,
    i: int,
    st: LexState,
    home: Option<Seq<char>>,
)
    requires
        0 <= i <= s.len(),
        at_word_boundary(lex(s, i, st, home)),
    ensures
        lex(s + seq!['#'] + t, i, st, home) == lex(s, i, st, home),
    decreases s.len() - i,
{
    let u = s + seq!['#'] + t;
    if i < s.len() {
        assert(u[i] == s[i]);
        if i + 1 < s.len() {
            assert(u[i + 1] == s[i + 1]);
        }
        let (j, next) = lex_step(s, i, st, home);
        let (ju, nextu) = lex_step(u, i, st, home);
        if s[i] == '#' && !st.single && !st.double && st.current.len() == 0 && !st.escaped {
            assert(lex(u, u.len() as int, st, home) == st);
            assert(lex(s, s.len() as int, st, home) == st);
        } else if st.single || st.double {
            if s[i] == '\\' && !st.escaped && i + 1 == s.len() {
                assert(lex(s, j, next, home) == next);
            } else {
                assert(ju == j && nextu == next);
                lemma_lex_comment(s, t, j, next, home);
            }
        } else {
            assert(ju == j && nextu == next);
            lemma_lex_comment(s, t, j, next, home);
        }
    } else {
        assert(u[i] == '#');
        assert(lex_step(u, i, st, home) == (u.len() as int, st));
        assert(lex(u, u.len() as int, st, home) == st);
    }
}

/// A character that word splitting takes as it is: no quote, backslash,
/// `~`, `#`, space or tab.
pub open spec fn is_plain_char(c: char) -> bool {
    c != '"' && c != '\'' && c != '\\' && c != '~' && c != '#' && c != ' ' && c != '\t'
}

/// A character that word splitting adds to the current word as it is, in
/// the quote state `single`/`double`: no backslash or `~`, no quote that
/// would toggle quoting, and no space, tab or `#` outside quotes.
pub open spec fn is_literal_char(c: char, single: bool, double: bool) -> bool {
    &&& c != '\\'
    &&& c != '~'
    &&& (c == '"' ==> single)
    &&& (c == '\'' ==> double)
    &&& ((c == ' ' || c == '\t' || c == '#') ==> (single || double))
}

proof fn lemma_lex_literal(
    s: Seq<char>,
    i: int,
    k: int,
    st: LexState,
    home: Option<Seq<char>>,
)
    requires
        0 <= i <= k <= s.len(),
        !st.escaped,
        forall|m: int| i <= m < k ==> is_literal_char(#[trigger] s[m], st.single, st.double),
    ensures
        lex(s, i, st, home) == lex(
            s,
            k,
            LexState { current: st.current + s.subrange(i, k), ..st },
            home,
        ),
    decreases k - i,
{
    if i < k {
        assert(is_literal_char(s[i], st.single, st.double));
        let next = LexState { current: st.current.push(s[i]), ..st };
        assert(lex_step(s, i, st, home) == (i + 1, next));
        lemma_lex_literal(s, i + 1, k, next, home);
        assert(next.current + s.subrange(i + 1, k) =~= st.current + s.subrange(i, k));
    } else {
        assert(st.current + s.subrange(i, k) =~= st.current);
    }
}

proof fn lemma_lex_plain(
    s: Seq<char>,
    i: int,
    k: int,
    st: LexState,
    home: Option<Seq<char>>,
)
    requires
        0 <= i <= k <= s.len(),
        !st.escaped,
        forall|m: int| i <= m < k ==> is_plain_char(#[trigger] s[m]),
    ensures
        lex(s, i, st, home) == lex(
            s,
            k,
            LexState { current: st.current + s.subrange(i, k), ..st },
            home,
        ),
{
    assert forall|m: int| i <= m < k implies is_literal_char(#[trigger] s[m], st.single, st.double) by {
        assert(is_plain_char(s[m]));
    }
    lemma_lex_literal(s, i, k, st, home);
}

/// A word in single quotes whose characters are neither a single quote, a
/// backslash nor `~` is read back as those characters.
pub proof fn lemma_single_quoted_word(w: Seq<char>, home: Option<Seq<char>>)
    requires
        w.len() > 0,
        forall|m: int|
            0 <= m < w.len() ==> #[trigger] w[m] != '\'' && w[m] != '\\' && w[m] != '~',
    ensures
        words_of(seq!['\''] + w + seq!['\''], home) == seq![w],
{
    let s = seq!['\''] + w + seq!['\''];
    let n = w.len() as int;
    assert(s[0] == '\'');
    let st1 = LexState { single: true, ..lex_start() };
    assert(lex_step(s, 0, lex_start(), home) == (1int, st1));
    assert forall|m: int| 1 <= m < n + 1 implies is_literal_char(#[trigger] s[m], true, false) by {
        assert(s[m] == w[m - 1]);
    }
    lemma_lex_literal(s, 1, n + 1, st1, home);
    let st2 = LexState { current: st1.current + s.subrange(1, n + 1), ..st1 };
    assert(s.subrange(1, n + 1) =~= w);
    assert(st1.current + s.subrange(1, n + 1) =~= w);
    assert(s[n + 1] == '\'');
    let st3 = LexState { single: false, ..st2 };
    assert(lex_step(s, n + 1, st2, home) == (n + 2, st3));
    assert(lex(s, n + 2, st3, home) == st3);
    assert(seq![].push(w) =~= seq![w]);
}

/// A non-empty run of ordinary characters is one word, taken as it is.
pub proof fn lemma_plain_word(w: Seq<char>, home: Option<Seq<char>>)
    requires
        w.len() > 0,
        forall|m: int| 0 <= m < w.len() ==> is_plain_char(#[trigger] w[m]),
    ensures
        words_of(w, home) == seq![w],
{
    lemma_lex_plain(w, 0, w.len() as int, lex_start(), home);
    assert(seq![] + w.subrange(0, w.len() as int) =~= w);
}

/// A space after a run of ordinary characters ends that word: the words of
/// the rest of the line follow it.
pub proof fn lemma_blank_separates(w: Seq<char>, t: Seq<char>, home: Option<Seq<char>>)
    requires
        w.len() > 0,
        forall|m: int| 0 <= m < w.len() ==> is_plain_char(#[trigger] w[m]),
    ensures
        words_of(w + seq![' '] + t, home) == seq![w] + words_of(t, home),
{
    let u = w + seq![' '] + t;
    let p = w + seq![' '];
    assert(u =~= p + t);
    assert forall|m: int| 0 <= m < w.len() implies is_plain_char(#[trigger] u[m]) by {
        assert(u[m] == w[m]);
    }
    lemma_lex_plain(u, 0, w.len() as int, lex_start(), home);
    let after_w = LexState {
        current: seq![] + u.subrange(0, w.len() as int),
        ..lex_start()
    };
    assert(after_w.current =~= w);
    assert(u[w.len() as int] == ' ');
    let after_blank = LexState { words: seq![w], current: seq![], ..lex_start() };
    assert(lex_step(u, w.len() as int, after_w, home) == ((w.len() + 1) as int, after_blank)) by {
        assert(seq![].push(w) =~= seq![w]);
    }
    lemma_lex_shift(p, t, 0, after_blank, home);
    assert(after_blank == LexState { words: seq![w] + lex_start().words, ..lex_start() }) by {
        assert(seq![w] + seq![] =~= seq![w]);
    }
    lemma_lex_words_prefix(t, 0, lex_start(), seq![w], home);
    let r = lex(t, 0, lex_start(), home);
    let last = if r.escaped {
        r.current.push('\\')
    } else {
        r.current
    };
    if last.len() > 0 {
        assert((seq![w] + r.words).push(last) =~= seq![w] + r.words.push(last));
    }
}

/// A `#` outside quotes at the start of a word ends the line: what follows
/// it is ignored.
pub proof fn lemma_comment_ends_line(s: Seq<char>, t: Seq<char>, home: Option<Seq<char>>)
    requires
        at_word_boundary(lex(s, 0, lex_start(), home)),
    ensures
        split_command(s + seq!['#'] + t, home) == split_command(s, home),
{
    lemma_lex_comment(s, t, 0, lex_start(), home);
}

} // verus!

verus! {

proof fn lemma_scan_take_step(s: Seq<char>, i: int)
    requires
        0 <= i < s.len(),
    ensures
        scan(s.take(i + 1)) == scan_step(scan(s.take(i)), s[i]),
{
    assert(s.take(i + 1).drop_last() =~= s.take(i));
}

proof fn lemma_lex_follows_scan(s: Seq<char>, i: int, st: LexState, home: Option<Seq<char>>)
    requires
        0 <= i <= s.len(),
        st.single == scan(s.take(i)).single,
        st.double == scan(s.take(i)).double,
        st.escaped == scan(s.take(i)).escaped,
    ensures
        lex(s, i, st, home).single ==> scan(s).single,
        lex(s, i, st, home).double ==> scan(s).double,
    decreases s.len() - i,
{
    if i == s.len() {
        assert(s.take(i) =~= s);
    } else {
        lemma_scan_take_step(s, i);
        let (j, next) = lex_step(s, i, st, home);
        let c = s[i];
        if !st.escaped && c == '#' && !st.single && !st.double && st.current.len() == 0 {
            assert(lex(s, j, next, home) == next);
        } else if !st.escaped && c == '\\' && (st.single || st.double) && i + 1 < s.len() {
            lemma_scan_take_step(s, i + 1);
            lemma_lex_follows_scan(s, j, next, home);
        } else if !st.escaped && c == '\\' && (st.single || st.double) {
            assert(j == s.len());
            assert(s.take(i + 1) =~= s);
            assert(lex(s, j, next, home) == next);
        } else {
            lemma_lex_follows_scan(s, j, next, home);
        }
    }
}

/// A complete line leaves no quote open when it is split into words: the
/// continuation lines read for an incomplete line are what closes its
/// quotes.
pub proof fn lemma_complete_line_closes_quotes(s: Seq<char>, home: Option<Seq<char>>)
    requires
        command_complete(s),
    ensures
        !lex(s, 0, lex_start(), home).single,
        !lex(s, 0, lex_start(), home).double,
{
    assert(s.take(0) =~= Seq::<char>::empty());
    lemma_lex_follows_scan(s, 0, lex_start(), home);
}

} // verus!

verus! {

/// A space or a tab: what separates words outside quotes.
pub open spec fn is_blank(c: char) -> bool {
    c == ' ' || c == '\t'
}

/// The fields of `s` after the finished fields `done` and the field `cur`
/// being built: runs of characters other than spaces and tabs, in order.
pub open spec fn blank_fields_from(s: Seq<char>, done: Seq<Seq<char>>, cur: Seq<char>) -> Seq<
    Seq<char>,
>
    decreases s.len(),
{
    if s.len() == 0 {
        if cur.len() > 0 {
            done.push(cur)
        } else {
            done
        }
    } else if is_blank(s[0]) {
        blank_fields_from(
            s.drop_first(),
            if cur.len() > 0 {
                done.push(cur)
            } else {
                done
            },
            seq![],
        )
    } else {
        blank_fields_from(s.drop_first(), done, cur.push(s[0]))
    }
}

/// The fields of `s` split at spaces and tabs: its maximal runs of other
/// characters, in order.
pub open spec fn blank_fields(s: Seq<char>) -> Seq<Seq<char>> {
    blank_fields_from(s, seq![], seq![])
}

proof fn lemma_lex_blank_fields(
    s: Seq<char>,
    i: int,
    done: Seq<Seq<char>>,
    cur: Seq<char>,
    home: Option<Seq<char>>,
)
    requires
        0 <= i <= s.len(),
        forall|m: int| i <= m < s.len() ==> is_plain_char(#[trigger] s[m]) || is_blank(s[m]),
    ensures
        ({
            let st = lex(
                s,
                i,
                LexState { words: done, current: cur, single: false, double: false, escaped: false },
                home,
            );
            &&& !st.escaped
            &&& (if st.current.len() > 0 {
                st.words.push(st.current)
            } else {
                st.words
            }) == blank_fields_from(s.subrange(i, s.len() as int), done, cur)
        }),
    decreases s.len() - i,
{
    let st = LexState { words: done, current: cur, single: false, double: false, escaped: false };
    let rest = s.subrange(i, s.len() as int);
    if i < s.len() {
        assert(rest[0] == s[i]);
        assert(rest.drop_first() =~= s.subrange(i + 1, s.len() as int));
        if is_blank(s[i]) {
            if cur.len() > 0 {
                lemma_lex_blank_fields(s, i + 1, done.push(cur), seq![], home);
            } else {
                assert(cur =~= seq![]);
                lemma_lex_blank_fields(s, i + 1, done, seq![], home);
            }
        } else {
            lemma_lex_blank_fields(s, i + 1, done, cur.push(s[i]), home);
        }
    } else {
        assert(rest.len() == 0);
    }
}

/// A line of ordinary characters (no quote, backslash, `~` or `#`)
/// separated by spaces and tabs is split at the spaces and tabs: its words
/// are its fields, the command name is the first of them and the
/// arguments are the others.
pub proof fn lemma_plain_line_splits_at_blanks(s: Seq<char>, home: Option<Seq<char>>)
    requires
        forall|m: int| 0 <= m < s.len() ==> is_plain_char(#[trigger] s[m]) || is_blank(s[m]),
    ensures
        words_of(s, home) == blank_fields(s),
        split_command(s, home) == (if blank_fields(s).len() == 0 {
            (seq![], seq![])
        } else {
            (blank_fields(s)[0], blank_fields(s).drop_first())
        }),
{
    lemma_lex_blank_fields(s, 0, seq![], seq![], home);
    assert(s.subrange(0, s.len() as int) =~= s);
    assert(lex_start() == LexState {
        words: seq![],
        current: seq![],
        single: false,
        double: false,
        escaped: false,
    });
}

proof fn lemma_scan_escaped_parity(s: Seq<char>)
    ensures
        scan(s).escaped == (trailing_backslashes(s) % 2 == 1),
    decreases s.len(),
{
    if s.len() > 0 {
        lemma_scan_escaped_parity(s.drop_last());
    }
}

proof fn lemma_scan_after_start(a: Seq<char>, b: Seq<char>)
    requires
        scan(a) == (QuoteScan { single: false, double: false, escaped: false }),
    ensures
        scan(a + b) == scan(b),
    decreases b.len(),
{
    if b.len() == 0 {
        assert(a + b =~= a);
    } else {
        lemma_scan_after_start(a, b.drop_last());
        assert((a + b).drop_last() =~= a + b.drop_last());
        assert((a + b).last() == b.last());
    }
}

proof fn lemma_trailing_backslashes_append(a: Seq<char>, b: Seq<char>)
    ensures
        trailing_backslashes(a + b) == (if trailing_backslashes(b) == b.len() {
            trailing_backslashes(a) + b.len()
        } else {
            trailing_backslashes(b)
        }),
    decreases b.len(),
{
    if b.len() == 0 {
        assert(a + b =~= a);
    } else {
        lemma_trailing_backslashes_append(a, b.drop_last());
        assert((a + b).drop_last() =~= a + b.drop_last());
        assert((a + b).last() == b.last());
        lemma_trailing_backslashes_bound(b.drop_last());
    }
}

proof fn lemma_trailing_backslashes_bound(s: Seq<char>)
    ensures
        trailing_backslashes(s) <= s.len(),
    decreases s.len(),
{
    if s.len() > 0 {
        lemma_trailing_backslashes_bound(s.drop_last());
    }
}

/// Two complete command lines written one after the other make a complete
/// command line.
pub proof fn lemma_complete_lines_join(a: Seq<char>, b: Seq<char>)
    requires
        command_complete(a),
        command_complete(b),
    ensures
        command_complete(a + b),
{
    lemma_scan_escaped_parity(a);
    lemma_scan_after_start(a, b);
    lemma_trailing_backslashes_append(a, b);
}

} // verus!

verus! {

proof fn lemma_trimmed_end_shape(s: Seq<char>)
    ensures
        trimmed_end(s).len() <= s.len(),
        trimmed_end(s) =~= s.take(trimmed_end(s).len() as int),
        forall|m: int| trimmed_end(s).len() <= m < s.len() ==> is_space_char(#[trigger] s[m]),
    decreases s.len(),
{
    if s.len() > 0 && is_space_char(s.last()) {
        let d = s.drop_last();
        lemma_trimmed_end_shape(d);
        assert forall|m: int| trimmed_end(s).len() <= m < s.len() implies is_space_char(
            #[trigger] s[m],
        ) by {
            if m < s.len() - 1 {
                assert(d[m] == s[m]);
            }
        }
        assert(d.take(trimmed_end(d).len() as int) =~= s.take(trimmed_end(d).len() as int));
    } else {
        assert(s.take(s.len() as int) =~= s);
    }
}

proof fn lemma_trimmed_start_shape(s: Seq<char>)
    ensures
        trimmed_start(s).len() <= s.len(),
        trimmed_start(s) =~= s.skip(s.len() - trimmed_start(s).len()),
        forall|m: int| 0 <= m < s.len() - trimmed_start(s).len() ==> is_space_char(#[trigger] s[m]),
    decreases s.len(),
{
    if s.len() > 0 && is_space_char(s[0]) {
        let d = s.drop_first();
        lemma_trimmed_start_shape(d);
        assert forall|m: int| 0 <= m < s.len() - trimmed_start(s).len() implies is_space_char(
            #[trigger] s[m],
        ) by {
            if m > 0 {
                assert(d[m - 1] == s[m]);
            }
        }
        assert(d.skip(d.len() - trimmed_start(d).len()) =~= s.skip(
            s.len() - trimmed_start(d).len(),
        ));
    } else {
        assert(s.skip(0) =~= s);
    }
}

proof fn lemma_blank_fields_all_blank(t: Seq<char>, done: Seq<Seq<char>>)
    requires
        forall|m: int| 0 <= m < t.len() ==> is_blank(#[trigger] t[m]),
    ensures
        blank_fields_from(t, done, seq![]) == done,
    decreases t.len(),
{
    if t.len() > 0 {
        assert(is_blank(t[0]));
        assert forall|m: int| 0 <= m < t.drop_first().len() implies is_blank(
            #[trigger] t.drop_first()[m],
        ) by {
            assert(t.drop_first()[m] == t[m + 1]);
        }
        lemma_blank_fields_all_blank(t.drop_first(), done);
    }
}

proof fn lemma_blank_fields_trailing(
    x: Seq<char>,
    t: Seq<char>,
    done: Seq<Seq<char>>,
    cur: Seq<char>,
)
    requires
        forall|m: int| 0 <= m < t.len() ==> is_blank(#[trigger] t[m]),
    ensures
        blank_fields_from(x + t, done, cur) == blank_fields_from(x, done, cur),
    decreases x.len(),
{
    if x.len() == 0 {
        assert(x + t =~= t);
        if t.len() > 0 {
            assert(is_blank(t[0]));
            let d2 = if cur.len() > 0 {
                done.push(cur)
            } else {
                done
            };
            assert forall|m: int| 0 <= m < t.drop_first().len() implies is_blank(
                #[trigger] t.drop_first()[m],
            ) by {
                assert(t.drop_first()[m] == t[m + 1]);
            }
            lemma_blank_fields_all_blank(t.drop_first(), d2);
        }
    } else {
        assert((x + t)[0] == x[0]);
        assert((x + t).drop_first() =~= x.drop_first() + t);
        if is_blank(x[0]) {
            let d2 = if cur.len() > 0 {
                done.push(cur)
            } else {
                done
            };
            lemma_blank_fields_trailing(x.drop_first(), t, d2, seq![]);
        } else {
            lemma_blank_fields_trailing(x.drop_first(), t, done, cur.push(x[0]));
        }
    }
}

proof fn lemma_blank_fields_leading(x: Seq<char>, j: int)
    requires
        0 <= j <= x.len(),
        forall|m: int| 0 <= m < j ==> is_blank(#[trigger] x[m]),
    ensures
        blank_fields(x.skip(j)) == blank_fields(x),
    decreases j,
{
    if j == 0 {
        assert(x.skip(0) =~= x);
    } else {
        assert(is_blank(x[0]));
        let d = x.drop_first();
        assert forall|m: int| 0 <= m < j - 1 implies is_blank(#[trigger] d[m]) by {
            assert(d[m] == x[m + 1]);
        }
        lemma_blank_fields_leading(d, j - 1);
        assert(d.skip(j - 1) =~= x.skip(j));
    }
}

proof fn lemma_scan_without_quotes(x: Seq<char>)
    requires
        forall|m: int| 0 <= m < x.len() ==> #[trigger] x[m] != '\'' && x[m] != '"' && x[m] != '\\',
    ensures
        scan(x) == (QuoteScan { single: false, double: false, escaped: false }),
    decreases x.len(),
{
    if x.len() > 0 {
        let d = x.drop_last();
        assert forall|m: int| 0 <= m < d.len() implies #[trigger] d[m] != '\'' && d[m] != '"' && d[m]
            != '\\' by {
            assert(d[m] == x[m]);
        }
        lemma_scan_without_quotes(d);
        assert(x.last() == x[x.len() - 1]);
    }
}

/// A command line of ordinary characters (no quote, backslash, `~` or `#`)
/// whose only whitespace is spaces and tabs is complete once trimmed, so
/// no continuation line is read for it, and the trimmed line splits at
/// the spaces and tabs: the command name is its first field and the
/// arguments are the others, as splitting the line at whitespace gives.
pub proof fn lemma_plain_command_line(s: Seq<char>, home: Option<Seq<char>>)
    requires
        forall|m: int|
            0 <= m < s.len() ==> is_blank(#[trigger] s[m]) || (is_plain_char(s[m])
                && !is_space_char(s[m])),
    ensures
        command_complete(trimmed(s)),
        words_of(trimmed(s), home) == blank_fields(s),
        split_command(trimmed(s), home) == (if blank_fields(s).len() == 0 {
            (seq![], seq![])
        } else {
            (blank_fields(s)[0], blank_fields(s).drop_first())
        }),
{
    let x = trimmed_end(s);
    let k = x.len() as int;
    lemma_trimmed_end_shape(s);
    lemma_trimmed_start_shape(x);
    let y = trimmed(s);
    let j = x.len() - y.len();
    // The trimmed characters are spaces and tabs.
    let tail = s.skip(k);
    assert forall|m: int| 0 <= m < tail.len() implies is_blank(#[trigger] tail[m]) by {
        assert(tail[m] == s[k + m]);
        assert(is_space_char(s[k + m]));
    }
    assert(s =~= x + tail);
    lemma_blank_fields_trailing(x, tail, seq![], seq![]);
    assert forall|m: int| 0 <= m < j implies is_blank(#[trigger] x[m]) by {
        assert(x[m] == s[m]);
        assert(is_space_char(x[m]));
    }
    lemma_blank_fields_leading(x, j);
    // What is left is plain characters and blanks.
    assert forall|m: int| 0 <= m < y.len() implies is_plain_char(#[trigger] y[m]) || is_blank(y[m]) by {
        assert(y[m] == x[j + m]);
        assert(x[j + m] == s[j + m]);
    }
    lemma_plain_line_splits_at_blanks(y, home);
    assert forall|m: int| 0 <= m < y.len() implies #[trigger] y[m] != '\'' && y[m] != '"' && y[m]
        != '\\' by {
        assert(is_plain_char(y[m]) || is_blank(y[m]));
    }
    lemma_scan_without_quotes(y);
    if y.len() > 0 {
        assert(y.last() == y[y.len() - 1]);
    }
}

} // verus!

verus! {

/// Joining a continuation line keeps the incomplete line, a newline, and
/// the continuation line up to its last character that is not whitespace:
/// only the trailing whitespace of the continuation is dropped (its
/// leading whitespace stays), so a continuation without trailing
/// whitespace is kept whole.
pub proof fn lemma_continuation_keeps_text(input: Seq<char>, extra: Seq<char>)
    ensures
        ({
            let k = continued(input, extra).len() - input.len() - 1;
            &&& 0 <= k <= extra.len()
            &&& continued(input, extra) == input.push('\n') + extra.take(k)
            &&& forall|m: int| k <= m < extra.len() ==> is_space_char(#[trigger] extra[m])
            &&& k > 0 ==> !is_space_char(extra[k - 1])
        }),
        (extra.len() == 0 || !is_space_char(extra.last())) ==> continued(input, extra) == input.push(
            '\n',
        ) + extra,
{
    lemma_trimmed_end_shape(extra);
    let t = trimmed_end(extra);
    assert(continued(input, extra).len() == input.len() + 1 + t.len());
    if t.len() > 0 {
        lemma_trimmed_end_last(extra);
    }
    if extra.len() == 0 || !is_space_char(extra.last()) {
        assert(t == extra);
        assert(extra.take(extra.len() as int) =~= extra);
    }
}

proof fn lemma_trimmed_end_last(s: Seq<char>)
    requires
        trimmed_end(s).len() > 0,
    ensures
        !is_space_char(s[trimmed_end(s).len() - 1]),
    decreases s.len(),
{
    if s.len() > 0 && is_space_char(s.last()) {
        lemma_trimmed_end_last(s.drop_last());
        lemma_trimmed_end_shape(s.drop_last());
        assert(s.drop_last()[trimmed_end(s).len() - 1] == s[trimmed_end(s).len() - 1]);
    } else {
        assert(s.last() == s[s.len() - 1]);
    }
}

} // verus!
