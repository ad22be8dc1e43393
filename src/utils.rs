use vstd::prelude::*;

verus! {

/// An ASCII decimal digit.
pub open spec fn is_digit(c: char) -> bool {
    '0' <= c && c <= '9'
}

/// An ASCII letter, upper or lower case.
pub open spec fn is_alpha(c: char) -> bool {
    ('a' <= c && c <= 'z') || ('A' <= c && c <= 'Z')
}

/// An ASCII letter or digit.
pub open spec fn is_alnum(c: char) -> bool {
    is_alpha(c) || is_digit(c)
}

/// The separator between tokens.
pub open spec fn is_space(c: char) -> bool {
    c == ' '
}

/// One of the four operator characters.
pub open spec fn is_op_char(c: char) -> bool {
    c == '+' || c == '-' || c == '*' || c == '/'
}

/// Length of the longest prefix of `s` whose characters all satisfy `p`.
pub open spec fn run_len(s: Seq<char>, p: spec_fn(char) -> bool) -> nat
    decreases s.len(),
{
    if s.len() > 0 && p(s[0]) {
        1 + run_len(s.drop_first(), p)
    } else {
        0
    }
}

/// Splits `s` into (remainder, longest prefix satisfying `p`).
pub open spec fn spec_take_while(s: Seq<char>, p: spec_fn(char) -> bool) -> (Seq<char>, Seq<char>) {
    (s.skip(run_len(s, p) as int), s.take(run_len(s, p) as int))
}

pub open spec fn msg_expected_digits() -> Seq<char> {
    "expected digits"@
}

pub open spec fn msg_expected_space() -> Seq<char> {
    "expected a space"@
}

pub open spec fn msg_expected_ident() -> Seq<char> {
    "expected identifier"@
}

pub open spec fn msg_expected_op() -> Seq<char> {
    "expected operator"@
}

/// The digit run at the head of `s`; fails when there is none.
pub open spec fn spec_extract_digits(s: Seq<char>) -> Result<(Seq<char>, Seq<char>), Seq<char>> {
    if run_len(s, |c: char| is_digit(c)) == 0 {
        Err(msg_expected_digits())
    } else {
        Ok(spec_take_while(s, |c: char| is_digit(c)))
    }
}

/// The (possibly empty) run of spaces at the head of `s`.
pub open spec fn spec_extract_whitespace(s: Seq<char>) -> (Seq<char>, Seq<char>) {
    spec_take_while(s, |c: char| is_space(c))
}

/// The run of spaces at the head of `s`; fails when it is empty.
pub open spec fn spec_extract_whitespace1(s: Seq<char>) -> Result<(Seq<char>, Seq<char>), Seq<char>> {
    if run_len(s, |c: char| is_space(c)) == 0 {
        Err(msg_expected_space())
    } else {
        Ok(spec_extract_whitespace(s))
    }
}

/// An identifier: a letter followed by letters and digits.
pub open spec fn spec_extract_ident(s: Seq<char>) -> Result<(Seq<char>, Seq<char>), Seq<char>> {
    if s.len() > 0 && is_alpha(s[0]) {
        Ok(spec_take_while(s, |c: char| is_alnum(c)))
    } else {
        Err(msg_expected_ident())
    }
}

/// A single operator character.
pub open spec fn spec_extract_op(s: Seq<char>) -> Result<(Seq<char>, Seq<char>), Seq<char>> {
    if s.len() > 0 && is_op_char(s[0]) {
        Ok((s.skip(1), s.take(1)))
    } else {
        Err(msg_expected_op())
    }
}

/// The literal `t` at the head of `s`.
pub open spec fn spec_tag(t: Seq<char>, s: Seq<char>) -> Result<Seq<char>, Seq<char>> {
    if t.is_prefix_of(s) {
        Ok(s.skip(t.len() as int))
    } else {
        Err("expected "@ + t)
    }
}

/// A run that stops where its predicate fails has the length of that run.
pub proof fn lemma_run_len_split(d: Seq<char>, rest: Seq<char>, p: spec_fn(char) -> bool)
    requires
        forall|i: int| 0 <= i < d.len() ==> #[trigger] p(d[i]),
        rest.len() == 0 || !p(rest[0]),
    ensures
        run_len(d + rest, p) == d.len(),
    decreases d.len(),
{
    if d.len() > 0 {
        let tail = d.drop_first();
        assert forall|i: int| 0 <= i < tail.len() implies #[trigger] p(tail[i]) by {
            assert(p(d[i + 1]));
        }
        lemma_run_len_split(tail, rest, p);
        assert((d + rest).drop_first() =~= tail + rest);
        assert((d + rest)[0] == d[0]);
    } else {
        assert(d + rest =~= rest);
    }
}

/// The characters of the run all satisfy the predicate, and the one after it does not.
pub proof fn lemma_run_len_bounds(s: Seq<char>, p: spec_fn(char) -> bool)
    ensures
        run_len(s, p) <= s.len(),
        forall|i: int| 0 <= i < run_len(s, p) ==> #[trigger] p(s[i]),
        run_len(s, p) < s.len() ==> !p(s[run_len(s, p) as int]),
    decreases s.len(),
{
    if s.len() > 0 && p(s[0]) {
        let tail = s.drop_first();
        lemma_run_len_bounds(tail, p);
        assert forall|i: int| 0 <= i < run_len(s, p) implies #[trigger] p(s[i]) by {
            if i > 0 {
                assert(s[i] == tail[i - 1]);
            }
        }
        if run_len(s, p) < s.len() {
            assert(s[run_len(s, p) as int] == tail[run_len(tail, p) as int]);
        }
    }
}

/// A non-empty digit string followed by text that does not start with a digit splits back into the two.
pub proof fn lemma_extract_digits_split(d: Seq<char>, rest: Seq<char>)
    requires
        d.len() > 0,
        forall|i: int| 0 <= i < d.len() ==> is_digit(#[trigger] d[i]),
        rest.len() == 0 || !is_digit(rest[0]),
    ensures
        spec_extract_digits(d + rest) == Ok::<(Seq<char>, Seq<char>), Seq<char>>((rest, d)),
{
    let p = |c: char| is_digit(c);
    assert forall|i: int| 0 <= i < d.len() implies #[trigger] p(d[i]) by {}
    lemma_run_len_split(d, rest, p);
    assert((d + rest).skip(d.len() as int) =~= rest);
    assert((d + rest).take(d.len() as int) =~= d);
}

/// The empty text holds no digits.
pub proof fn lemma_extract_digits_empty()
    ensures
        spec_extract_digits(Seq::<char>::empty()) == Err::<(Seq<char>, Seq<char>), Seq<char>>(msg_expected_digits()),
{
}

/// An identifier followed by text that cannot continue it splits back into the two.
pub proof fn lemma_extract_ident_split(id: Seq<char>, rest: Seq<char>)
    requires
        id.len() > 0,
        is_alpha(id[0]),
        forall|i: int| 0 <= i < id.len() ==> is_alnum(#[trigger] id[i]),
        rest.len() == 0 || !is_alnum(rest[0]),
    ensures
        spec_extract_ident(id + rest) == Ok::<(Seq<char>, Seq<char>), Seq<char>>((rest, id)),
{
    let p = |c: char| is_alnum(c);
    assert forall|i: int| 0 <= i < id.len() implies #[trigger] p(id[i]) by {}
    lemma_run_len_split(id, rest, p);
    assert((id + rest)[0] == id[0]);
    assert((id + rest).skip(id.len() as int) =~= rest);
    assert((id + rest).take(id.len() as int) =~= id);
}

fn char_is_digit(c: char) -> (r: bool)
    ensures
        r == is_digit(c),
{
    '0' <= c && c <= '9'
}

fn char_is_alpha(c: char) -> (r: bool)
    ensures
        r == is_alpha(c),
{
    ('a' <= c && c <= 'z') || ('A' <= c && c <= 'Z')
}

fn char_is_alnum(c: char) -> (r: bool)
    ensures
        r == is_alnum(c),
{
    char_is_alpha(c) || char_is_digit(c)
}

/// Splits `s` into (remainder, longest prefix accepted by `accept`).
pub fn take_while<F: Fn(char) -> bool>(accept: F, s: &str) -> (r: (&str, &str))
    requires
        forall|c: char| #[trigger] accept.requires((c,)),
    ensures
        r.1@ + r.0@ == s@,
        forall|i: int| 0 <= i < r.1@.len() ==> accept.ensures((#[trigger] r.1@[i],), true),
        r.0@.len() > 0 ==> accept.ensures((r.0@[0],), false),
{
    let n = s.unicode_len();
    let mut i: usize = 0;
    let mut stopped = false;
    while i < n && !stopped
        invariant
            i <= n,
            n == s@.len(),
            forall|c: char| #[trigger] accept.requires((c,)),
            forall|j: int| 0 <= j < i ==> accept.ensures((#[trigger] s@[j],), true),
            stopped ==> i < n && accept.ensures((s@[i as int],), false),
        decreases n - i + (if stopped { 0int } else { 1int }),
    {
        let c = s.get_char(i);
        if accept(c) {
            i = i + 1;
        } else {
            stopped = true;
        }
    }
    let extracted = s.substring_char(0, i);
    let remainder = s.substring_char(i, n);
    proof {
        assert(extracted@ + remainder@ =~= s@);
        assert forall|j: int| 0 <= j < extracted@.len() implies accept.ensures((#[trigger] extracted@[j],), true) by {
            assert(extracted@[j] == s@[j]);
        }
    }
    (remainder, extracted)
}

/// The run of ASCII digits at the head of `s`, as (remainder, digits).
pub fn extract_digits(s: &str) -> (r: Result<(&str, &str), String>)
    ensures
        match r {
            Ok((rest, digits)) => spec_extract_digits(s@) == Ok::<(Seq<char>, Seq<char>), Seq<char>>((rest@, digits@)),
            Err(e) => spec_extract_digits(s@) == Err::<(Seq<char>, Seq<char>), Seq<char>>(e@),
        },
        r is Ok ==> forall|i: int| 0 <= i < r->Ok_0.1@.len() ==> is_digit(#[trigger] r->Ok_0.1@[i]),
{
    let r = take_while(|c: char| -> (b: bool) ensures b == is_digit(c) { char_is_digit(c) }, s);
    proof {
        lemma_run_len_split(r.1@, r.0@, |c: char| is_digit(c));
        assert(s@.skip(r.1@.len() as int) =~= r.0@);
        assert(s@.take(r.1@.len() as int) =~= r.1@);
    }
    if r.1.unicode_len() == 0 {
        Err(String::from_str("expected digits"))
    } else {
        Ok(r)
    }
}

/// The run of spaces at the head of `s`, possibly empty, as (remainder, spaces).
pub fn extract_whitespace(s: &str) -> (r: (&str, &str))
    ensures
        spec_extract_whitespace(s@) == (r.0@, r.1@),
{
    let r = take_while(|c: char| -> (b: bool) ensures b == is_space(c) { c == ' ' }, s);
    proof {
        lemma_run_len_split(r.1@, r.0@, |c: char| is_space(c));
        assert(s@.skip(r.1@.len() as int) =~= r.0@);
        assert(s@.take(r.1@.len() as int) =~= r.1@);
    }
    r
}

/// The run of spaces at the head of `s`, which must hold at least one.
pub fn extract_whitespace1(s: &str) -> (r: Result<(&str, &str), String>)
    ensures
        match r {
            Ok((rest, spaces)) => spec_extract_whitespace1(s@) == Ok::<(Seq<char>, Seq<char>), Seq<char>>((rest@, spaces@)),
            Err(e) => spec_extract_whitespace1(s@) == Err::<(Seq<char>, Seq<char>), Seq<char>>(e@),
        },
{
    let r = extract_whitespace(s);
    proof {
        lemma_run_len_bounds(s@, |c: char| is_space(c));
    }
    if r.1.unicode_len() == 0 {
        Err(String::from_str("expected a space"))
    } else {
        Ok(r)
    }
}

/// An identifier at the head of `s`: a letter, then letters and digits.
pub fn extract_ident(s: &str) -> (r: Result<(&str, &str), String>)
    ensures
        match r {
            Ok((rest, ident)) => spec_extract_ident(s@) == Ok::<(Seq<char>, Seq<char>), Seq<char>>((rest@, ident@)),
            Err(e) => spec_extract_ident(s@) == Err::<(Seq<char>, Seq<char>), Seq<char>>(e@),
        },
{
    let starts_alpha = s.unicode_len() > 0 && char_is_alpha(s.get_char(0));
    if starts_alpha {
        let r = take_while(|c: char| -> (b: bool) ensures b == is_alnum(c) { char_is_alnum(c) }, s);
        proof {
            lemma_run_len_split(r.1@, r.0@, |c: char| is_alnum(c));
            assert(s@.skip(r.1@.len() as int) =~= r.0@);
            assert(s@.take(r.1@.len() as int) =~= r.1@);
        }
        Ok(r)
    } else {
        Err(String::from_str("expected identifier"))
    }
}

/// One operator character (`+`, `-`, `*` or `/`) at the head of `s`.
pub fn extract_op(s: &str) -> (r: Result<(&str, &str), String>)
    ensures
        match r {
            Ok((rest, op)) => spec_extract_op(s@) == Ok::<(Seq<char>, Seq<char>), Seq<char>>((rest@, op@)),
            Err(e) => spec_extract_op(s@) == Err::<(Seq<char>, Seq<char>), Seq<char>>(e@),
        },
{
    let n = s.unicode_len();
    if n > 0 {
        let c = s.get_char(0);
        if c == '+' || c == '-' || c == '*' || c == '/' {
            return Ok((s.substring_char(1, n), s.substring_char(0, 1)));
        }
    }
    Err(String::from_str("expected operator"))
}

/// The remainder of `s` after the literal `starting_text`, which must begin it.
pub fn tag<'a, 'b>(starting_text: &'a str, s: &'b str) -> (r: Result<&'b str, String>)
    ensures
        match r {
            Ok(rest) => spec_tag(starting_text@, s@) == Ok::<Seq<char>, Seq<char>>(rest@),
            Err(e) => spec_tag(starting_text@, s@) == Err::<Seq<char>, Seq<char>>(e@),
        },
{
    let m = starting_text.unicode_len();
    let n = s.unicode_len();
    if m > n {
        return Err(String::from_str("expected ").concat(starting_text));
    }
    let mut i: usize = 0;
    while i < m
        invariant
            m <= n,
            m == starting_text@.len(),
            n == s@.len(),
            i <= m,
            forall|j: int| 0 <= j < i ==> starting_text@[j] == s@[j],
        decreases m - i,
    {
        if starting_text.get_char(i) != s.get_char(i) {
            return Err(String::from_str("expected ").concat(starting_text));
        }
        i = i + 1;
    }
    proof {
        assert(starting_text@ =~= s@.take(m as int));
    }
    Ok(s.substring_char(m, n))
}

} // verus!
