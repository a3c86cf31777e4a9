//! Reading pip `requirements.txt` text: physical lines, comments, line
//! continuations, `${VAR}` expansion, option tokens and `--hash` values.
use vstd::prelude::*;
use crate::text::{
    chars_of, ends_with, eq_chars, find_char, find_chars, first_occurrence, index_of,
    is_hex_digit, is_whitespace, is_ws, lower_chars, lower_seq, seqs_of, slice_of, split_char,
    split_chars, starts_with, starts_with_chars, suffix_from, trim, trim_chars, trim_end,
    trim_end_chars, trim_start, trim_start_chars,
};

verus! {

// ---------------------------------------------------------------------------
// Lines
// ---------------------------------------------------------------------------

/// One `\r` removed from the end, if there is one.
pub open spec fn strip_cr(s: Seq<char>) -> Seq<char> {
    if s.len() > 0 && s.last() == '\r' {
        s.drop_last()
    } else {
        s
    }
}

/// `str::lines`: split on `\n`, a `\r` before each `\n` dropped, no final
/// empty line.
pub open spec fn lines(s: Seq<char>) -> Seq<Seq<char>> {
    let p = split_char(s, '\n');
    let body = Seq::new((p.len() - 1) as nat, |i: int| strip_cr(p[i]));
    if p.last().len() > 0 {
        body.push(p.last())
    } else {
        body
    }
}

pub fn strip_cr_chars(s: Vec<char>) -> (out: Vec<char>)
    ensures
        out@ == strip_cr(s@),
{
    let mut s = s;
    if s.len() > 0 && s[s.len() - 1] == '\r' {
        s.pop();
    }
    s
}

/// The lines of a text (`str::lines`).
pub fn text_lines(s: &[char]) -> (out: Vec<Vec<char>>)
    ensures
        seqs_of(out@) == lines(s@),
{
    let pieces = split_chars(s, '\n');
    proof {
        crate::text::lemma_split_char_nonempty(s@, '\n');
    }
    let n = pieces.len();
    let mut out: Vec<Vec<char>> = Vec::new();
    let mut i: usize = 0;
    while i + 1 < n
        invariant
            n == pieces@.len(),
            n >= 1,
            seqs_of(pieces@) == split_char(s@, '\n'),
            i <= n - 1,
            out@.len() == i,
            forall|k: int| 0 <= k < i ==> #[trigger] out@[k]@ == strip_cr(pieces@[k]@),
        decreases n - i,
    {
        let piece = slice_of(pieces[i].as_slice(), 0, pieces[i].len());
        out.push(strip_cr_chars(piece));
        i = i + 1;
    }
    let ghost body = Seq::new((n - 1) as nat, |k: int| strip_cr(split_char(s@, '\n')[k]));
    assert(seqs_of(out@) =~= body);
    if pieces[n - 1].len() > 0 {
        let last = slice_of(pieces[n - 1].as_slice(), 0, pieces[n - 1].len());
        let ghost before = seqs_of(out@);
        proof {
            assert(split_char(s@, '\n').last() == seqs_of(pieces@)[n - 1]);
            assert(last@ =~= pieces@[n - 1]@);
        }
        out.push(last);
        assert(seqs_of(out@) =~= before.push(last@));
    }
    out
}

// ---------------------------------------------------------------------------
// Comments
// ---------------------------------------------------------------------------

pub open spec fn is_quote(c: char) -> bool {
    c == '\'' || c == '"'
}

/// The open quote after reading `s`: a quote character opens a quote when
/// none is open and closes the quote it opened.
pub open spec fn quote_state(s: Seq<char>) -> Option<char>
    decreases s.len(),
{
    if s.len() == 0 {
        None
    } else {
        let q = quote_state(s.drop_last());
        let c = s.last();
        if is_quote(c) {
            if q == Some(c) {
                None
            } else if q is None {
                Some(c)
            } else {
                q
            }
        } else {
            q
        }
    }
}

/// A `#` at `i` starts a comment: it is outside quotes and follows whitespace.
pub open spec fn comment_at(line: Seq<char>, i: int) -> bool {
    &&& 0 < i < line.len()
    &&& line[i] == '#'
    &&& quote_state(line.take(i)) is None
    &&& is_ws(line[i - 1])
}

/// `strip_requirement_comment`: a line that starts with `#` (after
/// whitespace) is all comment; otherwise the text before the first `#` that
/// is outside quotes and follows whitespace.
pub open spec fn strip_comment(line: Seq<char>) -> Seq<char> {
    if starts_with(trim_start(line), "#"@) {
        Seq::empty()
    } else if exists|i: int| comment_at(line, i) {
        line.take(choose|i: int| comment_at(line, i) && forall|j: int| 0 <= j < i ==> !comment_at(line, j))
    } else {
        line
    }
}

fn next_quote(q: Option<char>, c: char) -> (r: Option<char>)
    ensures
        r == (if is_quote(c) {
            if q == Some(c) {
                None
            } else if q is None {
                Some(c)
            } else {
                q
            }
        } else {
            q
        }),
{
    if c == '\'' || c == '"' {
        match q {
            Some(x) => if x == c {
                None
            } else {
                q
            },
            None => Some(c),
        }
    } else {
        q
    }
}

proof fn lemma_first_comment(line: Seq<char>, k: int)
    requires
        comment_at(line, k),
        forall|j: int| 0 <= j < k ==> !comment_at(line, j),
    ensures
        (choose|i: int| comment_at(line, i) && forall|j: int| 0 <= j < i ==> !comment_at(line, j))
            == k,
{
    let w = choose|i: int| comment_at(line, i) && forall|j: int| 0 <= j < i ==> !comment_at(line, j);
    assert(comment_at(line, w) && forall|j: int| 0 <= j < w ==> !comment_at(line, j));
    if w < k {
    } else if w > k {
    }
}

/// `strip_requirement_comment`.
pub fn strip_requirement_comment(line: &[char]) -> (out: Vec<char>)
    ensures
        out@ == strip_comment(line@),
        out@.len() <= line@.len(),
        out@ == line@.take(out@.len() as int),
{
    let t = trim_start_chars(line);
    let hash = vec!['#'];
    proof {
        assert(hash@ =~= "#"@) by {
            reveal_strlit("#");
        }
    }
    if starts_with_chars(t.as_slice(), hash.as_slice()) {
        proof {
            assert(line@.take(0) =~= Seq::<char>::empty());
        }
        return Vec::new();
    }
    let mut quote: Option<char> = None;
    let mut i: usize = 0;
    while i < line.len()
        invariant
            i <= line@.len(),
            quote == quote_state(line@.take(i as int)),
            forall|j: int| 0 <= j < i ==> !comment_at(line@, j),
            !starts_with(trim_start(line@), "#"@),
        decreases line.len() - i,
    {
        let ch = line[i];
        if ch == '#' && quote.is_none() && i > 0 && is_whitespace(line[i - 1]) {
            proof {
                assert(comment_at(line@, i as int));
                lemma_first_comment(line@, i as int);
                assert(exists|k: int| comment_at(line@, k));
                assert(!starts_with(trim_start(line@), "#"@));
                assert(strip_comment(line@) == line@.take(i as int));
                assert(line@.subrange(0, i as int) =~= line@.take(i as int));
            }
            return slice_of(line, 0, i);
        }
        proof {
            assert(!comment_at(line@, i as int));
            assert(line@.take(i + 1).drop_last() =~= line@.take(i as int));
        }
        quote = next_quote(quote, ch);
        i = i + 1;
    }
    proof {
        assert forall|j: int| !comment_at(line@, j) by {
            if 0 <= j < line@.len() {
            }
        }
        assert(line@.take(line@.len() as int) =~= line@);
    }
    slice_of(line, 0, line.len())
}

// ---------------------------------------------------------------------------
// `${VAR}` expansion
// ---------------------------------------------------------------------------

pub open spec fn env_name_char(c: char) -> bool {
    ('A' <= c && c <= 'Z') || ('0' <= c && c <= '9') || c == '_'
}

/// `requirement_env_var_name_is_valid`: non-empty, upper-case ASCII letters,
/// digits and `_` only.
pub open spec fn env_name_valid(name: Seq<char>) -> bool {
    name.len() > 0 && forall|j: int| 0 <= j < name.len() ==> #[trigger] env_name_char(name[j])
}

/// The value of the first variable named `name`.
pub open spec fn lookup(vars: Seq<(Seq<char>, Seq<char>)>, name: Seq<char>) -> Option<Seq<char>>
    decreases vars.len(),
{
    if vars.len() == 0 {
        None
    } else if vars[0].0 == name {
        Some(vars[0].1)
    } else {
        lookup(vars.drop_first(), name)
    }
}

/// What `${name}` stands for: the variable's value when the name is valid and
/// the value is set and non-empty, else the text itself.
pub open spec fn env_replacement(vars: Seq<(Seq<char>, Seq<char>)>, name: Seq<char>) -> Seq<char> {
    let token = "${"@ + name + "}"@;
    if env_name_valid(name) {
        match lookup(vars, name) {
            Some(v) => if v.len() > 0 {
                v
            } else {
                token
            },
            None => token,
        }
    } else {
        token
    }
}

/// The first `${NAME}` of `rest`: the text up to it with its replacement, and
/// the text after it; `None` when `rest` has no complete `${...}`.
#[verifier::opaque]
pub open spec fn expand_head(rest: Seq<char>, vars: Seq<(Seq<char>, Seq<char>)>) -> Option<
    (Seq<char>, Seq<char>),
> {
    match first_occurrence(rest, "${"@) {
        None => None,
        Some(start) => {
            let after = rest.skip(start + 2);
            match index_of(after, '}') {
                None => None,
                Some(end) => if 0 <= start && 0 <= end && start + 2 + end + 1 <= rest.len() {
                    Some(
                        (
                            rest.take(start) + env_replacement(vars, after.take(end)),
                            after.skip(end + 1),
                        ),
                    )
                } else {
                    None
                },
            }
        },
    }
}

/// `expand_requirement_env_variables` with the environment given as `vars`.
pub open spec fn expand_env(rest: Seq<char>, vars: Seq<(Seq<char>, Seq<char>)>) -> Seq<char>
    decreases rest.len(),
{
    match expand_head(rest, vars) {
        None => rest,
        Some((h, next)) => if next.len() < rest.len() {
            h + expand_env(next, vars)
        } else {
            rest
        },
    }
}

/// The variables as character sequences.
pub open spec fn vars_view(vars: Seq<(String, String)>) -> Seq<(Seq<char>, Seq<char>)> {
    Seq::new(vars.len(), |i: int| (vars[i].0@, vars[i].1@))
}

/// `requirement_env_var_name_is_valid`.
pub fn requirement_env_var_name_is_valid(name: &[char]) -> (b: bool)
    ensures
        b == env_name_valid(name@),
{
    if name.len() == 0 {
        return false;
    }
    let mut i: usize = 0;
    while i < name.len()
        invariant
            i <= name@.len(),
            forall|j: int| 0 <= j < i ==> #[trigger] env_name_char(name@[j]),
        decreases name.len() - i,
    {
        let c = name[i];
        if !(('A' <= c && c <= 'Z') || ('0' <= c && c <= '9') || c == '_') {
            assert(!env_name_char(name@[i as int]));
            return false;
        }
        i = i + 1;
    }
    true
}

/// The value of the first variable named `name`.
pub fn lookup_var(vars: &Vec<(String, String)>, name: &[char]) -> (r: Option<Vec<char>>)
    ensures
        r matches Some(v) ==> lookup(vars_view(vars@), name@) == Some(v@),
        r is None ==> lookup(vars_view(vars@), name@) is None,
{
    let ghost vv = vars_view(vars@);
    let mut i: usize = 0;
    assert(vv.skip(0) =~= vv);
    while i < vars.len()
        invariant
            i <= vars@.len(),
            vv == vars_view(vars@),
            lookup(vv, name@) == lookup(vv.skip(i as int), name@),
        decreases vars.len() - i,
    {
        proof {
            assert(vv.skip(i as int)[0] == (vars@[i as int].0@, vars@[i as int].1@));
            assert(vv.skip(i as int).drop_first() =~= vv.skip(i + 1));
        }
        let key = chars_of(vars[i].0.as_str());
        if eq_chars(key.as_slice(), name) {
            return Some(chars_of(vars[i].1.as_str()));
        }
        i = i + 1;
    }
    None
}

fn append(out: &mut Vec<char>, s: &[char])
    ensures
        final(out)@ == old(out)@ + s@,
{
    let mut i: usize = 0;
    let ghost start = out@;
    while i < s.len()
        invariant
            i <= s@.len(),
            out@ == start + s@.take(i as int),
        decreases s.len() - i,
    {
        out.push(s[i]);
        i = i + 1;
        proof {
            assert(out@ =~= start + s@.take(i as int));
        }
    }
    assert(s@.take(s@.len() as int) =~= s@);
}

/// `expand_requirement_env_variables`: each `${NAME}` with a valid name and a
/// set, non-empty value is replaced by the value; other text is kept.  The
/// environment is given as `vars`.
pub fn expand_requirement_env_variables(line: &[char], vars: &Vec<(String, String)>) -> (out: Vec<
    char,
>)
    ensures
        out@ == expand_env(line@, vars_view(vars@)),
{
    let mut expanded: Vec<char> = Vec::new();
    let mut rest: Vec<char> = slice_of(line, 0, line.len());
    proof {
        assert(line@.subrange(0, line@.len() as int) =~= line@);
    }
    loop
        invariant
            expanded@ + expand_env(rest@, vars_view(vars@)) == expand_env(line@, vars_view(vars@)),
        decreases rest@.len(),
    {
        match expand_next(rest.as_slice(), vars) {
            None => {
                append(&mut expanded, rest.as_slice());
                return expanded;
            },
            Some((head, next)) => {
                let ghost e0 = expanded@;
                append(&mut expanded, head.as_slice());
                proof {
                    assert(expanded@ + expand_env(next@, vars_view(vars@)) =~= e0 + (head@
                        + expand_env(next@, vars_view(vars@))));
                }
                rest = next;
            },
        }
    }
}

/// The next `${NAME}` of `rest` replaced: the text up to and including the
/// replacement, and the rest after it.
fn expand_next(rest: &[char], vars: &Vec<(String, String)>) -> (r: Option<(Vec<char>, Vec<char>)>)
    ensures
        r is None ==> expand_head(rest@, vars_view(vars@)) is None,
        r matches Some((h, n)) ==> expand_head(rest@, vars_view(vars@)) == Some((h@, n@))
            && n@.len() < rest@.len(),
{
    reveal(expand_head);
    let open = vec!['$', '{'];
    proof {
        assert(open@ =~= "${"@) by {
            reveal_strlit("${");
        }
    }
    match find_chars(rest, open.as_slice()) {
        None => None,
        Some(start) => {
            let rl = rest.len();
            assert(start + 2 <= rl);
            let after = suffix_from(rest, start + 2);
            let al = after.len();
            match find_char(after.as_slice(), '}') {
                None => None,
                Some(end) => {
                    assert(end < al);
                    let name = slice_of(after.as_slice(), 0, end);
                    let mut token: Vec<char> = vec!['$', '{'];
                    append(&mut token, name.as_slice());
                    token.push('}');
                    proof {
                        assert(token@ =~= "${"@ + name@ + "}"@) by {
                            reveal_strlit("}");
                        }
                    }
                    let replacement = if requirement_env_var_name_is_valid(name.as_slice()) {
                        match lookup_var(vars, name.as_slice()) {
                            Some(v) => if v.len() > 0 {
                                v
                            } else {
                                token
                            },
                            None => token,
                        }
                    } else {
                        token
                    };
                    let mut head = slice_of(rest, 0, start);
                    append(&mut head, replacement.as_slice());
                    let next = suffix_from(after.as_slice(), end + 1);
                    proof {
                        assert(rest@.subrange(0, start as int) == rest@.take(start as int));
                    }
                    Some((head, next))
                },
            }
        },
    }
}

// ---------------------------------------------------------------------------
// Logical lines
// ---------------------------------------------------------------------------

/// One physical line read into the unfinished logical line `current`: the
/// logical line finished by it (if any) and the new unfinished line.
#[verifier::opaque]
pub open spec fn logical_step(
    current: Seq<char>,
    raw: Seq<char>,
    vars: Seq<(Seq<char>, Seq<char>)>,
) -> (Option<Seq<char>>, Seq<char>) {
    let stripped = trim_end(strip_comment(raw));
    let continued = ends_with(stripped, "\\"@);
    let body = trim(if continued {
        stripped.drop_last()
    } else {
        stripped
    });
    let cur = if body.len() == 0 {
        current
    } else if current.len() == 0 {
        body
    } else {
        current + " "@ + body
    };
    if !continued && trim(cur).len() > 0 {
        (Some(expand_env(cur, vars)), Seq::empty())
    } else {
        (None, cur)
    }
}

/// The state after reading some physical lines: the logical lines so far and
/// the unfinished logical line being continued.
pub open spec fn logical_state(
    ls: Seq<Seq<char>>,
    vars: Seq<(Seq<char>, Seq<char>)>,
) -> (Seq<Seq<char>>, Seq<char>)
    decreases ls.len(),
{
    if ls.len() == 0 {
        (Seq::empty(), Seq::empty())
    } else {
        let (done, current) = logical_state(ls.drop_last(), vars);
        match logical_step(current, ls.last(), vars).0 {
            Some(l) => (done.push(l), logical_step(current, ls.last(), vars).1),
            None => (done, logical_step(current, ls.last(), vars).1),
        }
    }
}

/// Reads one physical line into the unfinished logical line.
fn read_logical_step(current: Vec<char>, raw: &[char], vars: &Vec<(String, String)>) -> (r: (
    Option<Vec<char>>,
    Vec<char>,
))
    ensures
        (match r.0 {
            Some(l) => Some(l@),
            None => None,
        }) == logical_step(current@, raw@, vars_view(vars@)).0,
        r.1@ == logical_step(current@, raw@, vars_view(vars@)).1,
{
    reveal(logical_step);
    let backslash = vec!['\\'];
    let space = vec![' '];
    proof {
        assert(backslash@ =~= "\\"@) by {
            reveal_strlit("\\");
        }
        assert(space@ =~= " "@) by {
            reveal_strlit(" ");
        }
    }
    let mut current = current;
    let ghost cur0 = current@;
    let stripped0 = strip_requirement_comment(raw);
    let stripped = trim_end_chars(stripped0.as_slice());
    let continued = crate::text::ends_with_chars(stripped.as_slice(), backslash.as_slice());
    let body = if continued {
        let mut s2 = stripped;
        s2.pop();
        trim_chars(s2.as_slice())
    } else {
        trim_chars(stripped.as_slice())
    };
    if body.len() > 0 {
        if current.len() > 0 {
            append(&mut current, space.as_slice());
        }
        append(&mut current, body.as_slice());
    }
    let tc = trim_chars(current.as_slice());
    if !continued && tc.len() > 0 {
        let e = expand_requirement_env_variables(current.as_slice(), vars);
        (Some(e), Vec::new())
    } else {
        (None, current)
    }
}

/// `requirement_logical_lines`: comments removed, `\` continuations joined
/// with a space, blank lines dropped, `${VAR}` expanded.
pub open spec fn logical_lines(content: Seq<char>, vars: Seq<(Seq<char>, Seq<char>)>) -> Seq<
    Seq<char>,
> {
    let (done, current) = logical_state(lines(content), vars);
    if trim(current).len() > 0 {
        done.push(expand_env(current, vars))
    } else {
        done
    }
}

/// Reads physical lines into logical lines, returning the finished ones and
/// the unfinished one.
fn read_logical_lines(ls: &Vec<Vec<char>>, vars: &Vec<(String, String)>) -> (r: (
    Vec<Vec<char>>,
    Vec<char>,
))
    ensures
        (seqs_of(r.0@), r.1@) == logical_state(seqs_of(ls@), vars_view(vars@)),
{
    let ghost lsv = seqs_of(ls@);
    let mut done: Vec<Vec<char>> = Vec::new();
    let mut current: Vec<char> = Vec::new();
    proof {
        assert(lsv.take(0) =~= Seq::<Seq<char>>::empty());
        assert(seqs_of(done@) =~= Seq::<Seq<char>>::empty());
    }
    let mut i: usize = 0;
    while i < ls.len()
        invariant
            i <= ls@.len(),
            lsv == seqs_of(ls@),
            (seqs_of(done@), current@) == logical_state(lsv.take(i as int), vars_view(vars@)),
        decreases ls.len() - i,
    {
        proof {
            assert(lsv.take(i + 1).drop_last() =~= lsv.take(i as int));
            assert(lsv.take(i + 1).last() == ls@[i as int]@);
        }
        let ghost before = seqs_of(done@);
        let (finished, next) = read_logical_step(current, ls[i].as_slice(), vars);
        match finished {
            Some(l) => {
                done.push(l);
                proof {
                    assert(seqs_of(done@) =~= before.push(l@));
                }
            },
            None => {},
        }
        current = next;
        i = i + 1;
    }
    proof {
        assert(lsv.take(ls@.len() as int) =~= lsv);
    }
    (done, current)
}

/// `requirement_logical_lines` with the environment given as `vars`.
pub fn requirement_logical_lines(content: &str, vars: &Vec<(String, String)>) -> (out: Vec<Vec<char>>)
    ensures
        seqs_of(out@) == logical_lines(content@, vars_view(vars@)),
{
    let text = chars_of(content);
    let ls = text_lines(text.as_slice());
    let (mut done, current) = read_logical_lines(&ls, vars);
    let ghost before = seqs_of(done@);
    let tc = trim_chars(current.as_slice());
    if tc.len() > 0 {
        let e = expand_requirement_env_variables(current.as_slice(), vars);
        done.push(e);
        proof {
            assert(seqs_of(done@) =~= before.push(e@));
        }
    }
    done
}

// ---------------------------------------------------------------------------
// Options after a requirement: `--hash` values
// ---------------------------------------------------------------------------

/// A pip option starts at `i`: whitespace outside quotes followed, after more
/// whitespace, by `-`.
pub open spec fn pip_option_at(line: Seq<char>, i: int) -> bool {
    &&& 0 <= i < line.len()
    &&& is_ws(line[i])
    &&& quote_state(line.take(i)) is None
    &&& starts_with(trim_start(line.skip(i)), "-"@)
}

/// `first_pip_option_start`: the first index where a pip option starts.
pub open spec fn first_pip_option(line: Seq<char>) -> Option<int> {
    if exists|i: int| pip_option_at(line, i) {
        Some(choose|i: int| pip_option_at(line, i) && forall|j: int| 0 <= j < i ==> !pip_option_at(line, j))
    } else {
        None
    }
}

proof fn lemma_first_pip_option(line: Seq<char>, k: int)
    requires
        0 <= k <= line.len(),
        forall|j: int| 0 <= j < k ==> !pip_option_at(line, j),
        k == line.len() || pip_option_at(line, k),
    ensures
        k < line.len() ==> first_pip_option(line) == Some(k),
        k == line.len() ==> first_pip_option(line) is None,
{
    if k < line.len() {
        let w = choose|i: int| pip_option_at(line, i) && forall|j: int| 0 <= j < i ==> !pip_option_at(line, j);
        assert(pip_option_at(line, w) && forall|j: int| 0 <= j < w ==> !pip_option_at(line, j));
        if w < k {
        } else if w > k {
        }
    } else {
        assert forall|i: int| !pip_option_at(line, i) by {
            if 0 <= i < k {
            }
        }
    }
}

/// `first_pip_option_start` (a character index).
pub fn first_pip_option_start(line: &[char]) -> (r: Option<usize>)
    ensures
        r matches Some(i) ==> first_pip_option(line@) == Some(i as int) && i < line@.len(),
        r is None ==> first_pip_option(line@) is None,
{
    let dash = vec!['-'];
    proof {
        assert(dash@ =~= "-"@) by {
            reveal_strlit("-");
        }
    }
    let mut quote: Option<char> = None;
    let mut i: usize = 0;
    while i < line.len()
        invariant
            i <= line@.len(),
            dash@ == "-"@,
            quote == quote_state(line@.take(i as int)),
            forall|j: int| 0 <= j < i ==> !pip_option_at(line@, j),
        decreases line.len() - i,
    {
        let ch = line[i];
        proof {
            assert(line@.take(i + 1).drop_last() =~= line@.take(i as int));
        }
        if quote.is_none() && is_whitespace(ch) {
            let rest = suffix_from(line, i);
            let t = trim_start_chars(rest.as_slice());
            if starts_with_chars(t.as_slice(), dash.as_slice()) {
                proof {
                    lemma_first_pip_option(line@, i as int);
                }
                return Some(i);
            }
        }
        quote = next_quote(quote, ch);
        i = i + 1;
    }
    proof {
        lemma_first_pip_option(line@, i as int);
    }
    None
}

/// The tokens so far, the token being read and the open quote, after reading
/// `s` shell-style: whitespace outside quotes separates tokens, quote
/// characters that open or close a quote are dropped.
pub open spec fn shell_state(s: Seq<char>) -> (Seq<Seq<char>>, Seq<char>, Option<char>)
    decreases s.len(),
{
    if s.len() == 0 {
        (Seq::empty(), Seq::empty(), None)
    } else {
        let (t, cur, q) = shell_state(s.drop_last());
        let c = s.last();
        if is_quote(c) {
            if q == Some(c) {
                (t, cur, None)
            } else if q is None {
                (t, cur, Some(c))
            } else {
                (t, cur.push(c), q)
            }
        } else if q is None && is_ws(c) {
            if cur.len() > 0 {
                (t.push(cur), Seq::empty(), q)
            } else {
                (t, cur, q)
            }
        } else {
            (t, cur.push(c), q)
        }
    }
}

/// `shell_like_tokens`.
pub open spec fn shell_tokens(s: Seq<char>) -> Seq<Seq<char>> {
    let (t, cur, _q) = shell_state(s);
    if cur.len() > 0 {
        t.push(cur)
    } else {
        t
    }
}

proof fn lemma_shell_state_nonempty(s: Seq<char>)
    ensures
        forall|i: int| 0 <= i < shell_state(s).0.len() ==> #[trigger] shell_state(s).0[i].len() > 0,
    decreases s.len(),
{
    if s.len() > 0 {
        lemma_shell_state_nonempty(s.drop_last());
        let (t, cur, q) = shell_state(s.drop_last());
        let c = s.last();
        if !is_quote(c) && q is None && is_ws(c) && cur.len() > 0 {
            assert forall|i: int| 0 <= i < t.push(cur).len() implies #[trigger] t.push(cur)[i].len() > 0 by {
                if i < t.len() {
                    assert(t.push(cur)[i] == t[i]);
                }
            }
        }
    }
}

proof fn lemma_shell_tokens_nonempty(s: Seq<char>)
    ensures
        forall|i: int| 0 <= i < shell_tokens(s).len() ==> #[trigger] shell_tokens(s)[i].len() > 0,
{
    lemma_shell_state_nonempty(s);
    let (t, cur, q) = shell_state(s);
    if cur.len() > 0 {
        assert forall|i: int| 0 <= i < t.push(cur).len() implies #[trigger] t.push(cur)[i].len() > 0 by {
            if i < t.len() {
                assert(t.push(cur)[i] == t[i]);
            }
        }
    }
}

/// `shell_like_tokens`: splits on whitespace outside quotes; every token is
/// non-empty.
pub fn shell_like_tokens(value: &[char]) -> (out: Vec<Vec<char>>)
    ensures
        seqs_of(out@) == shell_tokens(value@),
        forall|i: int| 0 <= i < out@.len() ==> #[trigger] out@[i]@.len() > 0,
{
    let mut tokens: Vec<Vec<char>> = Vec::new();
    let mut current: Vec<char> = Vec::new();
    let mut quote: Option<char> = None;
    let mut i: usize = 0;
    proof {
        assert(value@.take(0) =~= Seq::<char>::empty());
        assert(seqs_of(tokens@) =~= Seq::<Seq<char>>::empty());
    }
    while i < value.len()
        invariant
            i <= value@.len(),
            (seqs_of(tokens@), current@, quote) == shell_state(value@.take(i as int)),
        decreases value.len() - i,
    {
        proof {
            assert(value@.take(i + 1).drop_last() =~= value@.take(i as int));
        }
        let ch = value[i];
        let ghost before = seqs_of(tokens@);
        if ch == '\'' || ch == '"' {
            match quote {
                Some(q) => {
                    if q == ch {
                        quote = None;
                    } else {
                        current.push(ch);
                    }
                },
                None => {
                    quote = Some(ch);
                },
            }
        } else if quote.is_none() && is_whitespace(ch) {
            if current.len() > 0 {
                let finished = current;
                tokens.push(finished);
                current = Vec::new();
                proof {
                    assert(seqs_of(tokens@) =~= before.push(finished@));
                }
            }
        } else {
            current.push(ch);
        }
        i = i + 1;
    }
    proof {
        assert(value@.take(value@.len() as int) =~= value@);
        lemma_shell_state_nonempty(value@);
    }
    if current.len() > 0 {
        let ghost before = seqs_of(tokens@);
        let finished = current;
        tokens.push(finished);
        proof {
            assert(seqs_of(tokens@) =~= before.push(finished@));
        }
    }
    proof {
        lemma_shell_tokens_nonempty(value@);
        assert(seqs_of(tokens@) == shell_tokens(value@));
        assert forall|i: int| 0 <= i < tokens@.len() implies #[trigger] tokens@[i]@.len() > 0 by {
            assert(seqs_of(tokens@)[i] == tokens@[i]@);
        }
    }
    tokens
}

/// `normalize_sha256_hash`: a `sha256:` value with 64 hex digits, lower-cased.
pub open spec fn sha256_hash(value: Seq<char>) -> Option<Seq<char>> {
    if starts_with(value, "sha256:"@) {
        let h = lower_seq(value.skip(7));
        if h.len() == 64 && forall|j: int| 0 <= j < h.len() ==> #[trigger] is_hex_digit(h[j]) {
            Some(h)
        } else {
            None
        }
    } else {
        None
    }
}

/// `normalize_sha256_hash`.
pub fn normalize_sha256_hash(value: &[char]) -> (r: Option<Vec<char>>)
    ensures
        r matches Some(h) ==> sha256_hash(value@) == Some(h@),
        r is None ==> sha256_hash(value@) is None,
{
    let prefix = chars_of("sha256:");
    proof {
        reveal_strlit("sha256:");
    }
    if !starts_with_chars(value, prefix.as_slice()) {
        return None;
    }
    let rest = suffix_from(value, 7);
    let hash = lower_chars(rest.as_slice());
    if hash.len() != 64 {
        return None;
    }
    let mut i: usize = 0;
    while i < hash.len()
        invariant
            i <= hash@.len(),
            hash@ == lower_seq(value@.skip(7)),
            hash@.len() == 64,
            starts_with(value@, "sha256:"@),
            forall|j: int| 0 <= j < i ==> #[trigger] is_hex_digit(hash@[j]),
        decreases hash.len() - i,
    {
        let c = hash[i];
        if !(('0' <= c && c <= '9') || ('a' <= c && c <= 'f') || ('A' <= c && c <= 'F')) {
            assert(!is_hex_digit(hash@[i as int]));
            return None;
        }
        i = i + 1;
    }
    Some(hash)
}

/// The hash a `--hash` value names, as a set of at most one.
pub open spec fn hash_set(value: Seq<char>) -> Set<Seq<char>> {
    match sha256_hash(value) {
        Some(h) => set![h],
        None => Set::empty(),
    }
}

/// The `sha256` hashes named by `--hash=VALUE` or `--hash VALUE` among the
/// tokens from index `i` on; a value taken by `--hash` is not read as an
/// option itself.
pub open spec fn hashes_from(tokens: Seq<Seq<char>>, i: int) -> Set<Seq<char>>
    decreases tokens.len() - i,
{
    if i < 0 || i >= tokens.len() {
        Set::empty()
    } else if starts_with(tokens[i], "--hash="@) {
        hash_set(tokens[i].skip(7)).union(hashes_from(tokens, i + 1))
    } else if tokens[i] == "--hash"@ {
        if i + 1 < tokens.len() {
            hash_set(tokens[i + 1]).union(hashes_from(tokens, i + 2))
        } else {
            Set::empty()
        }
    } else {
        hashes_from(tokens, i + 1)
    }
}

/// A requirement line split into the requirement and its `--hash` values.
pub struct ParsedRequirementLine {
    pub requirement: String,
    /// Distinct hashes, in the order first seen.
    pub hashes: Vec<String>,
}

/// The set of views of some strings.
pub open spec fn string_set(v: Seq<String>) -> Set<Seq<char>> {
    Set::new(|h: Seq<char>| exists|i: int| 0 <= i < v.len() && v[i]@ == h)
}

/// The requirement part of a line: the trimmed text before the first option.
pub open spec fn requirement_text(line: Seq<char>) -> Seq<char> {
    match first_pip_option(line) {
        Some(i) => trim(line.take(i)),
        None => trim(line),
    }
}

/// The option part of a line: the trimmed text from the first option on.
pub open spec fn options_text(line: Seq<char>) -> Seq<char> {
    match first_pip_option(line) {
        Some(i) => trim(line.skip(i)),
        None => Seq::empty(),
    }
}

fn insert_hash(hashes: &mut Vec<String>, h: Vec<char>)
    ensures
        string_set(final(hashes)@) == string_set(old(hashes)@).insert(h@),
{
    let mut i: usize = 0;
    while i < hashes.len()
        invariant
            i <= hashes@.len(),
            forall|j: int| 0 <= j < i ==> hashes@[j]@ != h@,
        decreases hashes.len() - i,
    {
        let existing = chars_of(hashes[i].as_str());
        if eq_chars(existing.as_slice(), h.as_slice()) {
            proof {
                assert(string_set(hashes@) =~= string_set(hashes@).insert(h@));
            }
            return;
        }
        i = i + 1;
    }
    let ghost before = hashes@;
    hashes.push(crate::text::string_from_chars(h.as_slice()));
    proof {
        assert forall|x: Seq<char>| string_set(hashes@).contains(x) == string_set(before).insert(
            h@,
        ).contains(x) by {
            if string_set(before).contains(x) {
                let k = choose|k: int| 0 <= k < before.len() && before[k]@ == x;
                assert(hashes@[k] == before[k]);
            }
            if x == h@ {
                assert(hashes@[before.len() as int]@ == h@);
            }
            if string_set(hashes@).contains(x) {
                let k = choose|k: int| 0 <= k < hashes@.len() && hashes@[k]@ == x;
                if k < before.len() {
                    assert(hashes@[k] == before[k]);
                }
            }
        }
        assert(string_set(hashes@) =~= string_set(before).insert(h@));
    }
}

/// `parse_requirement_line`: the requirement before the first pip option, and
/// the `sha256` hashes named by `--hash` options.
pub fn parse_requirement_line(line: &[char]) -> (parsed: ParsedRequirementLine)
    ensures
        parsed.requirement@ == requirement_text(line@),
        string_set(parsed.hashes@) == hashes_from(shell_tokens(options_text(line@)), 0),
{
    let (requirement, options) = match first_pip_option_start(line) {
        Some(index) => {
            let before = slice_of(line, 0, index);
            let after = suffix_from(line, index);
            proof {
                assert(before@ =~= line@.take(index as int));
            }
            (trim_chars(before.as_slice()), trim_chars(after.as_slice()))
        },
        None => (trim_chars(line), Vec::new()),
    };
    let tokens = shell_like_tokens(options.as_slice());
    let ghost ts = seqs_of(tokens@);
    let eq_prefix = chars_of("--hash=");
    let flag = chars_of("--hash");
    proof {
        reveal_strlit("--hash=");
    }
    let mut hashes: Vec<String> = Vec::new();
    let mut index: usize = 0;
    proof {
        assert(string_set(hashes@) =~= Set::<Seq<char>>::empty());
    }
    while index < tokens.len()
        invariant
            ts == seqs_of(tokens@),
            ts == shell_tokens(options@),
            eq_prefix@ == "--hash="@,
            eq_prefix@.len() == 7,
            flag@ == "--hash"@,
            hashes_from(ts, 0) == string_set(hashes@).union(hashes_from(ts, index as int)),
        decreases tokens.len() - index,
    {
        let token = &tokens[index];
        proof {
            assert(ts[index as int] == token@);
        }
        if starts_with_chars(token.as_slice(), eq_prefix.as_slice()) {
            let v = suffix_from(token.as_slice(), 7);
            let ghost old_set = string_set(hashes@);
            match normalize_sha256_hash(v.as_slice()) {
                Some(h) => insert_hash(&mut hashes, h),
                None => {},
            }
            proof {
                assert(string_set(hashes@) == old_set.union(hash_set(v@)));
                assert(old_set.union(hashes_from(ts, index as int)) =~= string_set(hashes@).union(
                    hashes_from(ts, index + 1),
                ));
            }
            index = index + 1;
        } else if eq_chars(token.as_slice(), flag.as_slice()) {
            if index + 1 < tokens.len() {
                let ghost old_set = string_set(hashes@);
                match normalize_sha256_hash(tokens[index + 1].as_slice()) {
                    Some(h) => insert_hash(&mut hashes, h),
                    None => {},
                }
                proof {
                    assert(ts[index + 1] == tokens@[index + 1]@);
                    assert(string_set(hashes@) == old_set.union(hash_set(tokens@[index + 1]@)));
                    assert(old_set.union(hashes_from(ts, index as int)) =~= string_set(
                        hashes@,
                    ).union(hashes_from(ts, index + 2)));
                }
                index = index + 2;
            } else {
                proof {
                    assert(string_set(hashes@).union(hashes_from(ts, index as int)) =~= string_set(
                        hashes@,
                    ).union(hashes_from(ts, tokens@.len() as int)));
                }
                index = tokens.len();
            }
        } else {
            index = index + 1;
        }
    }
    proof {
        assert(string_set(hashes@).union(hashes_from(ts, index as int)) =~= string_set(hashes@));
    }
    ParsedRequirementLine { requirement: crate::text::string_from_chars(requirement.as_slice()), hashes }
}

} // verus!
