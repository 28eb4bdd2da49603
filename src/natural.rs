//! Natural ("human") ordering of text, so that `item2` sorts before `item10`,
//! and decimal formatting with thousands separators.
use std::cmp::Ordering;
use vstd::prelude::*;
use crate::text::{chars_of, string_of};

verus! {

/// What `char::is_numeric` says of a character.
pub uninterp spec fn numeric(c: char) -> bool;

/// Relies on `char::is_numeric`: ASCII digits are numeric, no other ASCII character is.
#[verifier::external_body]
fn is_numeric(c: char) -> (r: bool)
    ensures
        r == numeric(c),
        r == is_num(c),
        '0' <= c <= '9' ==> r,
        (c as u32) < 128 && !('0' <= c <= '9') ==> !r,
{
    c.is_numeric()
}

/// A run of text: a number when it is made of decimal digits whose value fits
/// in 64 bits, otherwise the characters themselves.
pub enum Token {
    Number(u64),
    Text(Vec<char>),
}

/// The mathematical form of a token.
pub enum TokenView {
    Number(nat),
    Text(Seq<char>),
}

impl View for Token {
    type V = TokenView;

    open spec fn view(&self) -> TokenView {
        match self {
            Token::Number(n) => TokenView::Number(*n as nat),
            Token::Text(t) => TokenView::Text(t@),
        }
    }
}

/// Whether a character counts as part of a number: for ASCII, exactly the
/// decimal digits; beyond ASCII, what `char::is_numeric` says.
pub open spec fn is_num(c: char) -> bool {
    if (c as u32) < 128 {
        is_digit(c)
    } else {
        numeric(c)
    }
}

/// `s` split into maximal runs of characters that agree on being numeric.
pub open spec fn runs(s: Seq<char>) -> Seq<Seq<char>>
    decreases s.len(),
{
    if s.len() == 0 {
        seq![]
    } else {
        let r = runs(s.drop_last());
        if s.len() > 1 && is_num(s[s.len() - 2]) == is_num(s.last()) {
            r.update(r.len() - 1, r.last().push(s.last()))
        } else {
            r.push(seq![s.last()])
        }
    }
}

pub open spec fn is_digit(c: char) -> bool {
    '0' <= c <= '9'
}

pub open spec fn all_digits(s: Seq<char>) -> bool {
    forall|i: int| 0 <= i < s.len() ==> is_digit(#[trigger] s[i])
}

/// The value of a sequence of decimal digits.
pub open spec fn digits_value(s: Seq<char>) -> nat
    decreases s.len(),
{
    if s.len() == 0 {
        0
    } else {
        digits_value(s.drop_last()) * 10 + (s.last() as nat - '0' as nat) as nat
    }
}

/// The token that a run stands for: a number where the whole run reads as
/// an unsigned 64-bit decimal, its text otherwise.
pub open spec fn token_of(run: Seq<char>) -> TokenView {
    if run.len() > 0 && all_digits(run) && digits_value(run) <= u64::MAX {
        TokenView::Number(digits_value(run))
    } else {
        TokenView::Text(run)
    }
}

pub open spec fn run_tokens(r: Seq<Seq<char>>) -> Seq<TokenView> {
    r.map_values(|x: Seq<char>| token_of(x))
}

pub open spec fn token_views(v: Seq<Token>) -> Seq<TokenView> {
    v.map_values(|t: Token| t@)
}

/// The tokens of a string, one for each run.
pub open spec fn tokens(s: Seq<char>) -> Seq<TokenView> {
    run_tokens(runs(s))
}

/// Three-way comparison of characters by code point: -1, 0 or 1.
pub open spec fn cmp_int(a: int, b: int) -> int {
    if a < b {
        -1
    } else if a > b {
        1
    } else {
        0
    }
}

/// Lexicographic comparison of character sequences (as `String`'s order).
pub open spec fn text_cmp(a: Seq<char>, b: Seq<char>) -> int
    decreases a.len(),
{
    if a.len() == 0 {
        if b.len() == 0 {
            0
        } else {
            -1
        }
    } else if b.len() == 0 {
        1
    } else if cmp_int(a[0] as int, b[0] as int) != 0 {
        cmp_int(a[0] as int, b[0] as int)
    } else {
        text_cmp(a.drop_first(), b.drop_first())
    }
}

/// Numbers come before text; numbers compare by value, text lexicographically.
pub open spec fn token_cmp(a: TokenView, b: TokenView) -> int {
    match (a, b) {
        (TokenView::Number(x), TokenView::Number(y)) => cmp_int(x as int, y as int),
        (TokenView::Number(_), TokenView::Text(_)) => -1,
        (TokenView::Text(_), TokenView::Number(_)) => 1,
        (TokenView::Text(x), TokenView::Text(y)) => text_cmp(x, y),
    }
}

/// Token sequences compare token by token; a proper prefix comes first.
pub open spec fn tokens_cmp(a: Seq<TokenView>, b: Seq<TokenView>) -> int
    decreases a.len(),
{
    if a.len() == 0 {
        if b.len() == 0 {
            0
        } else {
            -1
        }
    } else if b.len() == 0 {
        1
    } else if token_cmp(a[0], b[0]) != 0 {
        token_cmp(a[0], b[0])
    } else {
        tokens_cmp(a.drop_first(), b.drop_first())
    }
}

/// The natural order of two strings, as -1, 0 or 1.
pub open spec fn natural(a: Seq<char>, b: Seq<char>) -> int {
    tokens_cmp(tokens(a), tokens(b))
}

pub open spec fn ord_int(o: Ordering) -> int {
    match o {
        Ordering::Less => -1,
        Ordering::Equal => 0,
        Ordering::Greater => 1,
    }
}

proof fn lemma_runs_shape(s: Seq<char>)
    requires
        s.len() > 0,
    ensures
        runs(s).len() > 0,
        runs(s).last().len() > 0,
        runs(s).last().last() == s.last(),
    decreases s.len(),
{
    if s.len() > 1 {
        lemma_runs_shape(s.drop_last());
    }
}

/// Reads a run of characters as an unsigned 64-bit decimal, as `str::parse::<u64>`
/// does for a run that holds no sign.
fn parse_digits(run: &Vec<char>) -> (r: Option<u64>)
    requires
        run@.len() > 0,
    ensures
        r.is_some() == (all_digits(run@) && digits_value(run@) <= u64::MAX),
        r.is_some() ==> r.unwrap() as nat == digits_value(run@),
{
    let mut v: u64 = 0;
    let mut i: usize = 0;
    while i < run.len()
        invariant
            i <= run@.len(),
            all_digits(run@.take(i as int)),
            v as nat == digits_value(run@.take(i as int)),
        decreases run.len() - i,
    {
        let c = run[i];
        assert(run@.take(i + 1).drop_last() =~= run@.take(i as int));
        if !('0' <= c && c <= '9') {
            assert(!is_digit(run@[i as int]));
            return None;
        }
        let d = (c as u32 - '0' as u32) as u64;
        if v > 1844674407370955161 || (v == 1844674407370955161 && d > 5) {
            proof {
                lemma_digits_value_prefix(run@, i as int + 1);
            }
            return None;
        }
        v = v * 10 + d;
        i = i + 1;
        assert(all_digits(run@.take(i as int)));
    }
    assert(run@.take(run@.len() as int) =~= run@);
    Some(v)
}

/// A longer run of digits never reads as a smaller value.
proof fn lemma_digits_value_prefix(s: Seq<char>, k: int)
    requires
        0 <= k <= s.len(),
        all_digits(s.take(k)),
    ensures
        all_digits(s) ==> digits_value(s.take(k)) <= digits_value(s),
    decreases s.len() - k,
{
    if k < s.len() && all_digits(s) {
        assert(all_digits(s.take(k + 1)));
        lemma_digits_value_prefix(s, k + 1);
        assert(s.take(k + 1).drop_last() =~= s.take(k));
    }
    if k == s.len() {
        assert(s.take(k) =~= s);
    }
}

fn token_from_run(run: Vec<char>) -> (t: Token)
    requires
        run@.len() > 0,
    ensures
        t@ == token_of(run@),
{
    match parse_digits(&run) {
        Some(n) => Token::Number(n),
        None => Token::Text(run),
    }
}

proof fn lemma_push_token(done: Seq<Token>, t: Token, rs: Seq<Seq<char>>)
    requires
        rs.len() > 0,
        token_views(done) == run_tokens(rs.drop_last()),
        t@ == token_of(rs.last()),
    ensures
        token_views(done.push(t)) == run_tokens(rs),
{
    let d2 = done.push(t);
    assert(token_views(done).len() == done.len());
    assert(run_tokens(rs.drop_last()).len() == rs.len() - 1);
    assert forall|j: int| 0 <= j < rs.len() implies #[trigger] token_views(d2)[j] == run_tokens(rs)[j] by {
        assert(token_views(d2)[j] == d2[j]@);
        assert(run_tokens(rs)[j] == token_of(rs[j]));
        if j < rs.len() - 1 {
            assert(d2[j] == done[j]);
            assert(token_views(done)[j] == done[j]@);
            assert(run_tokens(rs.drop_last())[j] == token_of(rs.drop_last()[j]));
            assert(token_views(done)[j] == run_tokens(rs.drop_last())[j]);
            assert(rs.drop_last()[j] == rs[j]);
        } else {
            assert(d2[j] == t);
        }
    }
    assert(token_views(d2) =~= run_tokens(rs));
}

/// Splits a string into alternating runs of numeric and non-numeric characters.
pub fn get_tokens(s: &str) -> (r: Vec<Token>)
    ensures
        token_views(r@) == tokens(s@),
{
    let cs = chars_of(s);
    let mut done: Vec<Token> = Vec::new();
    let mut cur: Vec<char> = Vec::new();
    let mut cur_numeric = false;
    let mut i: usize = 0;
    while i < cs.len()
        invariant
            cs@ == s@,
            i <= cs@.len(),
            i == 0 ==> cur@.len() == 0 && done@.len() == 0,
            i > 0 ==> cur@.len() > 0 && cur@ == runs(cs@.take(i as int)).last()
                && cur_numeric == is_num(cs@[i - 1])
                && runs(cs@.take(i as int)).len() > 0
                && token_views(done@) == run_tokens(runs(cs@.take(i as int)).drop_last()),
        decreases cs.len() - i,
    {
        let c = cs[i];
        let n = is_numeric(c);
        let ghost pre = cs@.take(i as int);
        let ghost next = cs@.take(i + 1);
        assert(next.drop_last() =~= pre);
        if i > 0 && n == cur_numeric {
            cur.push(c);
            proof {
                lemma_runs_shape(pre);
                assert(runs(next) == runs(pre).update(runs(pre).len() - 1, runs(pre).last().push(c)));
                assert(runs(next).drop_last() =~= runs(pre).drop_last());
            }
        } else {
            let ghost before_done = done@;
            if i > 0 {
                let t = token_from_run(cur);
                cur = Vec::new();
                done.push(t);
                proof {
                    lemma_runs_shape(pre);
                    lemma_push_token(before_done, t, runs(pre));
                }
            }
            cur.push(c);
            proof {
                assert(runs(next) == runs(pre).push(seq![c]));
                assert(runs(next).drop_last() =~= runs(pre));
                if i == 0 {
                    assert(runs(pre) =~= seq![]);
                }
                assert(cur@ =~= seq![c]);
            }
        }
        cur_numeric = n;
        i = i + 1;
    }
    if i > 0 {
        let ghost all = cs@.take(i as int);
        let t = token_from_run(cur);
        let ghost before_done = done@;
        done.push(t);
        assert(done@.drop_last() == before_done);
        proof {
            lemma_runs_shape(all);
            lemma_push_token(done@.drop_last(), t, runs(all));
        }
    }
    assert(cs@.take(i as int) =~= s@);
    proof {
        if i == 0 {
            assert(s@ =~= seq![]);
        }
    }
    done
}

fn cmp_u64(a: u64, b: u64) -> (r: Ordering)
    ensures
        ord_int(r) == cmp_int(a as int, b as int),
{
    if a < b {
        Ordering::Less
    } else if a > b {
        Ordering::Greater
    } else {
        Ordering::Equal
    }
}

fn cmp_char(x: char, y: char) -> (r: Ordering)
    ensures
        ord_int(r) == cmp_int(x as int, y as int),
{
    if x < y {
        Ordering::Less
    } else if x > y {
        Ordering::Greater
    } else {
        Ordering::Equal
    }
}

fn cmp_text(a: &Vec<char>, b: &Vec<char>) -> (r: Ordering)
    ensures
        ord_int(r) == text_cmp(a@, b@),
{
    let mut i: usize = 0;
    assert(a@.skip(0) =~= a@);
    assert(b@.skip(0) =~= b@);
    while i < a.len() && i < b.len()
        invariant
            i <= a@.len(),
            i <= b@.len(),
            text_cmp(a@, b@) == text_cmp(a@.skip(i as int), b@.skip(i as int)),
        decreases a.len() - i,
    {
        let x = a[i];
        let y = b[i];
        assert(a@.skip(i as int)[0] == x);
        assert(b@.skip(i as int)[0] == y);
        let o = cmp_char(x, y);
        match o {
            Ordering::Equal => {},
            _ => {
                return o;
            },
        }
        assert(a@.skip(i as int).drop_first() =~= a@.skip(i + 1));
        assert(b@.skip(i as int).drop_first() =~= b@.skip(i + 1));
        i = i + 1;
    }
    if i < a.len() {
        Ordering::Greater
    } else if i < b.len() {
        Ordering::Less
    } else {
        Ordering::Equal
    }
}

fn cmp_token(a: &Token, b: &Token) -> (r: Ordering)
    ensures
        ord_int(r) == token_cmp(a@, b@),
{
    match (a, b) {
        (Token::Number(x), Token::Number(y)) => cmp_u64(*x, *y),
        (Token::Number(_), Token::Text(_)) => Ordering::Less,
        (Token::Text(_), Token::Number(_)) => Ordering::Greater,
        (Token::Text(x), Token::Text(y)) => cmp_text(x, y),
    }
}

/// Natural comparison of two strings: digit runs compare by value, other runs
/// by characters, a number run before a text run, and a string that is a
/// token-wise prefix of another before it.
pub fn natural_cmp(a: &str, b: &str) -> (r: Ordering)
    ensures
        ord_int(r) == natural(a@, b@),
{
    let ta = get_tokens(a);
    let tb = get_tokens(b);
    let ghost va = token_views(ta@);
    let ghost vb = token_views(tb@);
    let mut i: usize = 0;
    assert(va.skip(0) =~= va);
    assert(vb.skip(0) =~= vb);
    while i < ta.len() && i < tb.len()
        invariant
            va == tokens(a@),
            vb == tokens(b@),
            va.len() == ta@.len(),
            vb.len() == tb@.len(),
            forall|j: int| 0 <= j < ta@.len() ==> va[j] == #[trigger] ta@[j]@,
            forall|j: int| 0 <= j < tb@.len() ==> vb[j] == #[trigger] tb@[j]@,
            i <= ta@.len(),
            i <= tb@.len(),
            natural(a@, b@) == tokens_cmp(va.skip(i as int), vb.skip(i as int)),
        decreases ta.len() - i,
    {
        let o = cmp_token(&ta[i], &tb[i]);
        assert(va.skip(i as int)[0] == ta@[i as int]@);
        assert(vb.skip(i as int)[0] == tb@[i as int]@);
        match o {
            Ordering::Equal => {},
            _ => {
                return o;
            },
        }
        assert(va.skip(i as int).drop_first() =~= va.skip(i + 1));
        assert(vb.skip(i as int).drop_first() =~= vb.skip(i + 1));
        i = i + 1;
    }
    if i < ta.len() {
        Ordering::Greater
    } else if i < tb.len() {
        Ordering::Less
    } else {
        Ordering::Equal
    }
}

/// The decimal digit for a value below ten.
pub open spec fn digit_char(d: nat) -> char {
    (('0' as nat) + d) as char
}

/// The decimal numeral of `n`, without separators.
pub open spec fn decimal(n: nat) -> Seq<char>
    decreases n,
{
    if n < 10 {
        seq![digit_char(n)]
    } else {
        decimal(n / 10).push(digit_char(n % 10))
    }
}

/// Exactly three digits, with leading zeros.
pub open spec fn pad3(n: nat) -> Seq<char> {
    seq![digit_char(n / 100), digit_char((n / 10) % 10), digit_char(n % 10)]
}

/// The numeral of `n` with a comma between each group of three digits.
pub open spec fn grouped(n: nat) -> Seq<char>
    decreases n,
{
    if n < 1000 {
        decimal(n)
    } else {
        grouped(n / 1000) + seq![','] + pad3(n % 1000)
    }
}

fn digit(d: usize) -> (c: char)
    requires
        d < 10,
    ensures
        c == digit_char(d as nat),
{
    ('0' as u8 + d as u8) as char
}

fn push_decimal(out: &mut Vec<char>, n: usize)
    ensures
        final(out)@ == old(out)@ + decimal(n as nat),
    decreases n,
{
    if n >= 10 {
        push_decimal(out, n / 10);
    }
    out.push(digit(n % 10));
    assert(final(out)@ =~= old(out)@ + decimal(n as nat));
}

/// The decimal numeral of `n`.
pub fn decimal_string(n: usize) -> (r: String)
    ensures
        r@ == decimal(n as nat),
{
    let mut v: Vec<char> = Vec::new();
    push_decimal(&mut v, n);
    assert(v@ =~= decimal(n as nat));
    string_of(&v)
}

fn push_grouped(out: &mut Vec<char>, n: usize)
    ensures
        final(out)@ == old(out)@ + grouped(n as nat),
    decreases n,
{
    if n < 1000 {
        push_decimal(out, n);
    } else {
        push_grouped(out, n / 1000);
        out.push(',');
        let m = n % 1000;
        out.push(digit(m / 100));
        out.push(digit((m / 10) % 10));
        out.push(digit(m % 10));
        assert(final(out)@ =~= old(out)@ + grouped(n as nat));
    }
}

/// Formats a number with a comma between each group of three digits.
pub fn thousands(size: usize) -> (r: String)
    ensures
        r@ == grouped(size as nat),
{
    let mut v: Vec<char> = Vec::new();
    push_grouped(&mut v, size);
    assert(v@ =~= grouped(size as nat));
    string_of(&v)
}

} // verus!
