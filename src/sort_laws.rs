//! Order facts about the natural comparison and the table sort built on it.
use vstd::prelude::*;
use crate::natural::{all_digits, cmp_int, digits_value, is_digit, natural, runs, text_cmp, token_cmp, tokens_cmp, TokenView};
use crate::rows::{cell, insert_pos, row_order, sort_rows, RowView, Sort};

verus! {

proof fn lemma_text_antisym(a: Seq<char>, b: Seq<char>)
    ensures
        text_cmp(a, b) == -text_cmp(b, a),
        text_cmp(a, a) == 0,
    decreases a.len(),
{
    if a.len() > 0 && b.len() > 0 && cmp_int(a[0] as int, b[0] as int) == 0 {
        lemma_text_antisym(a.drop_first(), b.drop_first());
    }
    if a.len() > 0 {
        lemma_text_antisym(a.drop_first(), a.drop_first());
    }
}

/// Texts that compare equal compare alike with any third text.
proof fn lemma_text_subst(a: Seq<char>, b: Seq<char>, c: Seq<char>)
    requires
        text_cmp(a, b) == 0,
    ensures
        text_cmp(a, c) == text_cmp(b, c),
    decreases a.len(),
{
    if a.len() > 0 && b.len() > 0 && c.len() > 0 && cmp_int(a[0] as int, c[0] as int) == 0 {
        lemma_text_subst(a.drop_first(), b.drop_first(), c.drop_first());
    }
}

proof fn lemma_text_trans(a: Seq<char>, b: Seq<char>, c: Seq<char>)
    requires
        text_cmp(a, b) < 0,
        text_cmp(b, c) < 0,
    ensures
        text_cmp(a, c) < 0,
    decreases a.len(),
{
    if a.len() > 0 && b.len() > 0 && c.len() > 0 && cmp_int(a[0] as int, b[0] as int) == 0
        && cmp_int(b[0] as int, c[0] as int) == 0 {
        lemma_text_trans(a.drop_first(), b.drop_first(), c.drop_first());
    }
}

proof fn lemma_token_basics(a: TokenView, b: TokenView)
    ensures
        token_cmp(a, b) == -token_cmp(b, a),
        token_cmp(a, a) == 0,
{
    match (a, b) {
        (TokenView::Text(x), TokenView::Text(y)) => {
            lemma_text_antisym(x, y);
        },
        (TokenView::Text(x), _) => {
            lemma_text_antisym(x, x);
        },
        _ => {},
    }
}

proof fn lemma_token_subst(a: TokenView, b: TokenView, c: TokenView)
    requires
        token_cmp(a, b) == 0,
    ensures
        token_cmp(a, c) == token_cmp(b, c),
{
    match (a, b, c) {
        (TokenView::Text(x), TokenView::Text(y), TokenView::Text(z)) => {
            lemma_text_subst(x, y, z);
        },
        _ => {},
    }
}

proof fn lemma_token_trans(a: TokenView, b: TokenView, c: TokenView)
    requires
        token_cmp(a, b) < 0,
        token_cmp(b, c) < 0,
    ensures
        token_cmp(a, c) < 0,
{
    match (a, b, c) {
        (TokenView::Text(x), TokenView::Text(y), TokenView::Text(z)) => {
            lemma_text_trans(x, y, z);
        },
        _ => {},
    }
}

proof fn lemma_tokens_antisym(a: Seq<TokenView>, b: Seq<TokenView>)
    ensures
        tokens_cmp(a, b) == -tokens_cmp(b, a),
        tokens_cmp(a, a) == 0,
    decreases a.len(),
{
    if a.len() > 0 && b.len() > 0 {
        lemma_token_basics(a[0], b[0]);
        if token_cmp(a[0], b[0]) == 0 {
            lemma_tokens_antisym(a.drop_first(), b.drop_first());
        }
    }
    if a.len() > 0 {
        lemma_token_basics(a[0], a[0]);
        lemma_tokens_antisym(a.drop_first(), a.drop_first());
    }
}

proof fn lemma_tokens_trans(a: Seq<TokenView>, b: Seq<TokenView>, c: Seq<TokenView>)
    requires
        tokens_cmp(a, b) < 0,
        tokens_cmp(b, c) < 0,
    ensures
        tokens_cmp(a, c) < 0,
    decreases a.len(),
{
    if a.len() > 0 && b.len() > 0 && c.len() > 0 {
        lemma_token_basics(a[0], b[0]);
        lemma_token_basics(b[0], c[0]);
        lemma_token_basics(a[0], c[0]);
        if token_cmp(a[0], b[0]) == 0 && token_cmp(b[0], c[0]) == 0 {
            lemma_token_subst(a[0], b[0], c[0]);
            lemma_tokens_trans(a.drop_first(), b.drop_first(), c.drop_first());
        } else if token_cmp(a[0], b[0]) == 0 {
            lemma_token_subst(a[0], b[0], c[0]);
        } else if token_cmp(b[0], c[0]) == 0 {
            lemma_token_basics(c[0], b[0]);
            lemma_token_subst(c[0], b[0], a[0]);
            lemma_token_basics(a[0], c[0]);
            lemma_token_basics(b[0], a[0]);
        } else {
            lemma_token_trans(a[0], b[0], c[0]);
        }
    }
}

/// The natural order is antisymmetric and its strict part is transitive.
pub proof fn lemma_natural_order(a: Seq<char>, b: Seq<char>, c: Seq<char>)
    ensures
        natural(a, b) == -natural(b, a),
        natural(a, b) < 0 && natural(b, c) < 0 ==> natural(a, c) < 0,
        natural(a, a) == 0,
{
    lemma_tokens_antisym(crate::natural::tokens(a), crate::natural::tokens(b));
    lemma_tokens_antisym(crate::natural::tokens(a), crate::natural::tokens(a));
    if natural(a, b) < 0 && natural(b, c) < 0 {
        lemma_tokens_trans(crate::natural::tokens(a), crate::natural::tokens(b), crate::natural::tokens(c));
    }
}

/// The sort key of a row: its cell in column `col`.
pub open spec fn key(x: RowView, col: int) -> Seq<char> {
    cell(x.0, col)
}

/// Signed comparison of two rows on column `col` alone, in direction `dir`.
pub open spec fn dir_cmp(x: RowView, y: RowView, col: int, dir: Sort) -> int {
    if dir == Sort::Desc {
        -natural(key(x, col), key(y, col))
    } else {
        natural(key(x, col), key(y, col))
    }
}

/// Strictly ordered on column `col` in direction `dir`.
pub open spec fn strictly_sorted(s: Seq<RowView>, col: int, dir: Sort) -> bool {
    forall|i: int, j: int| 0 <= i < j < s.len() ==> #[trigger] dir_cmp(s[i], s[j], col, dir) < 0
}

/// No two positions of `s` tie on column `col`.
pub open spec fn no_ties(s: Seq<RowView>, col: int) -> bool {
    forall|i: int, j: int| 0 <= i < s.len() && 0 <= j < s.len() && i != j
        ==> #[trigger] natural(key(s[i], col), key(s[j], col)) != 0
}

proof fn lemma_dir_trans(x: RowView, y: RowView, z: RowView, col: int, dir: Sort)
    requires
        dir_cmp(x, y, col, dir) < 0,
        dir_cmp(y, z, col, dir) < 0,
    ensures
        dir_cmp(x, z, col, dir) < 0,
{
    lemma_natural_order(key(x, col), key(y, col), key(z, col));
    lemma_natural_order(key(z, col), key(y, col), key(x, col));
    lemma_natural_order(key(y, col), key(z, col), key(x, col));
    lemma_natural_order(key(x, col), key(z, col), key(y, col));
    lemma_natural_order(key(z, col), key(x, col), key(y, col));
}

/// Where `x` goes into a strictly sorted `s` it ties with nothing of: after
/// the rows that come before it, before those that come after it.
proof fn lemma_insert_partition(s: Seq<RowView>, x: RowView, col: int, dir: Sort)
    requires
        strictly_sorted(s, col, dir),
        forall|i: int| 0 <= i < s.len() ==> natural(key(#[trigger] s[i], col), key(x, col)) != 0,
    ensures
        0 <= insert_pos(s, x, col, dir) <= s.len(),
        forall|i: int| 0 <= i < insert_pos(s, x, col, dir) ==> dir_cmp(#[trigger] s[i], x, col, dir) < 0,
        forall|i: int| insert_pos(s, x, col, dir) <= i < s.len() ==> dir_cmp(#[trigger] s[i], x, col, dir) > 0,
    decreases s.len(),
{
    if s.len() > 0 {
        let last = s.last();
        assert(natural(key(s[s.len() - 1], col), key(x, col)) != 0);
        assert(row_order(last.0, x.0, col, dir) == dir_cmp(last, x, col, dir));
        if dir_cmp(last, x, col, dir) < 0 {
            assert forall|i: int| 0 <= i < s.len() implies dir_cmp(#[trigger] s[i], x, col, dir) < 0 by {
                if i < s.len() - 1 {
                    assert(dir_cmp(s[i], s[s.len() - 1], col, dir) < 0);
                    lemma_dir_trans(s[i], last, x, col, dir);
                }
            }
        } else {
            let t = s.drop_last();
            assert(strictly_sorted(t, col, dir)) by {
                assert forall|i: int, j: int| 0 <= i < j < t.len() implies #[trigger] dir_cmp(t[i], t[j], col, dir) < 0 by {
                    assert(dir_cmp(s[i], s[j], col, dir) < 0);
                }
            }
            assert forall|i: int| 0 <= i < t.len() implies natural(key(#[trigger] t[i], col), key(x, col)) != 0 by {
                assert(natural(key(s[i], col), key(x, col)) != 0);
            }
            lemma_insert_partition(t, x, col, dir);
            let p = insert_pos(t, x, col, dir);
            assert forall|i: int| p <= i < s.len() implies dir_cmp(#[trigger] s[i], x, col, dir) > 0 by {
                if i < s.len() - 1 {
                    assert(dir_cmp(t[i], x, col, dir) > 0);
                }
            }
            assert forall|i: int| 0 <= i < p implies dir_cmp(#[trigger] s[i], x, col, dir) < 0 by {
                assert(dir_cmp(t[i], x, col, dir) < 0);
            }
        }
    }
}

proof fn lemma_partition_unique(s: Seq<RowView>, x: RowView, col: int, dir: Sort, p: int, q: int)
    requires
        0 <= p <= s.len(),
        0 <= q <= s.len(),
        forall|i: int| 0 <= i < p ==> dir_cmp(#[trigger] s[i], x, col, dir) < 0,
        forall|i: int| p <= i < s.len() ==> dir_cmp(#[trigger] s[i], x, col, dir) > 0,
        forall|i: int| 0 <= i < q ==> dir_cmp(#[trigger] s[i], x, col, dir) < 0,
        forall|i: int| q <= i < s.len() ==> dir_cmp(#[trigger] s[i], x, col, dir) > 0,
    ensures
        p == q,
{
    if p < q {
        assert(dir_cmp(s[p], x, col, dir) < 0);
    } else if q < p {
        assert(dir_cmp(s[q], x, col, dir) < 0);
    }
}

/// On a column where no two rows tie, the rows sorted ascending come out
/// strictly ascending, and sorting descending gives exactly the reverse.
pub proof fn law_descending_is_reverse(s: Seq<RowView>, col: int)
    requires
        no_ties(s, col),
    ensures
        strictly_sorted(sort_rows(s, col, Sort::Asc), col, Sort::Asc),
        sort_rows(s, col, Sort::Desc) == sort_rows(s, col, Sort::Asc).reverse(),
    decreases s.len(),
{
    if s.len() == 0 {
        assert(sort_rows(s, col, Sort::Asc).reverse() =~= s);
    } else {
        let t = s.drop_last();
        let x = s.last();
        assert(no_ties(t, col)) by {
            assert forall|i: int, j: int| 0 <= i < t.len() && 0 <= j < t.len() && i != j
                implies #[trigger] natural(key(t[i], col), key(t[j], col)) != 0 by {
                assert(natural(key(s[i], col), key(s[j], col)) != 0);
            }
        }
        law_descending_is_reverse(t, col);
        let a = sort_rows(t, col, Sort::Asc);
        let d = sort_rows(t, col, Sort::Desc);
        crate::table::lemma_sort_permutes(t, col, Sort::Asc);
        // every row of `a` is a row of `t`, and so ties with nothing of `x`
        assert forall|i: int| 0 <= i < a.len() implies natural(key(#[trigger] a[i], col), key(x, col)) != 0 by {
            assert(a.to_multiset().count(a[i]) > 0) by {
                broadcast use vstd::seq_lib::group_to_multiset_ensures;
                assert(a.contains(a[i]));
            }
            assert(t.contains(a[i])) by {
                broadcast use vstd::seq_lib::group_to_multiset_ensures;
            }
            let k = choose|k: int| 0 <= k < t.len() && t[k] == a[i];
            assert(natural(key(s[k], col), key(s[s.len() - 1], col)) != 0);
        }
        lemma_insert_partition(a, x, col, Sort::Asc);
        let p = insert_pos(a, x, col, Sort::Asc);
        let n = a.len() as int;
        assert(d == a.reverse());
        // `d` is strictly descending
        assert(strictly_sorted(d, col, Sort::Desc)) by {
            assert forall|i: int, j: int| 0 <= i < j < d.len() implies #[trigger] dir_cmp(d[i], d[j], col, Sort::Desc) < 0 by {
                assert(d[i] == a[n - 1 - i]);
                assert(d[j] == a[n - 1 - j]);
                assert(dir_cmp(a[n - 1 - j], a[n - 1 - i], col, Sort::Asc) < 0);
                lemma_natural_order(key(d[i], col), key(d[j], col), key(d[j], col));
            }
        }
        assert forall|i: int| 0 <= i < d.len() implies natural(key(#[trigger] d[i], col), key(x, col)) != 0 by {
            assert(d[i] == a[n - 1 - i]);
            assert(natural(key(a[n - 1 - i], col), key(x, col)) != 0);
        }
        lemma_insert_partition(d, x, col, Sort::Desc);
        let q = insert_pos(d, x, col, Sort::Desc);
        // `d` splits at `n - p`
        assert forall|i: int| 0 <= i < n - p implies dir_cmp(#[trigger] d[i], x, col, Sort::Desc) < 0 by {
            assert(d[i] == a[n - 1 - i]);
            assert(dir_cmp(a[n - 1 - i], x, col, Sort::Asc) > 0);
        }
        assert forall|i: int| n - p <= i < d.len() implies dir_cmp(#[trigger] d[i], x, col, Sort::Desc) > 0 by {
            assert(d[i] == a[n - 1 - i]);
            assert(dir_cmp(a[n - 1 - i], x, col, Sort::Asc) < 0);
        }
        lemma_partition_unique(d, x, col, Sort::Desc, q, n - p);
        let asc = a.insert(p, x);
        assert(sort_rows(s, col, Sort::Asc) == asc);
        assert(sort_rows(s, col, Sort::Desc) == d.insert(q, x));
        assert(d.insert(q, x) =~= asc.reverse()) by {
            assert forall|i: int| 0 <= i <= n implies #[trigger] d.insert(q, x)[i] == asc.reverse()[i] by {
                assert(asc.reverse()[i] == asc[n - i]);
                if i < n - p {
                    assert(d.insert(q, x)[i] == d[i]);
                    assert(asc[n - i] == a[n - i - 1]);
                } else if i == n - p {
                    assert(asc[p] == x);
                } else {
                    assert(d.insert(q, x)[i] == d[i - 1]);
                    assert(asc[n - i] == a[n - i]);
                }
            }
        }
        // the ascending result is strictly ascending
        assert(strictly_sorted(asc, col, Sort::Asc)) by {
            assert forall|i: int, j: int| 0 <= i < j < asc.len() implies #[trigger] dir_cmp(asc[i], asc[j], col, Sort::Asc) < 0 by {
                if j < p {
                    assert(asc[i] == a[i] && asc[j] == a[j]);
                } else if j == p {
                    assert(asc[i] == a[i] && asc[j] == x);
                } else if i < p {
                    assert(asc[i] == a[i] && asc[j] == a[j - 1]);
                    assert(dir_cmp(a[j - 1], x, col, Sort::Asc) > 0);
                    assert(dir_cmp(a[i], x, col, Sort::Asc) < 0);
                    lemma_natural_order(key(x, col), key(a[j - 1], col), key(a[j - 1], col));
                    lemma_dir_trans(a[i], x, a[j - 1], col, Sort::Asc);
                } else if i == p {
                    assert(asc[i] == x && asc[j] == a[j - 1]);
                    assert(dir_cmp(a[j - 1], x, col, Sort::Asc) > 0);
                    lemma_natural_order(key(x, col), key(a[j - 1], col), key(a[j - 1], col));
                } else {
                    assert(asc[i] == a[i - 1] && asc[j] == a[j - 1]);
                }
            }
        }
    }
}


/// A non-empty string of ASCII digits is a single run.
proof fn lemma_digit_run(s: Seq<char>)
    requires
        s.len() > 0,
        all_digits(s),
    ensures
        runs(s) == seq![s],
    decreases s.len(),
{
    assert(is_digit(s.last()));
    assert((s.last() as u32) < 128);
    if s.len() == 1 {
        assert(s =~= seq![s.last()]);
        assert(runs(s.drop_last()) =~= Seq::<Seq<char>>::empty());
    } else {
        let t = s.drop_last();
        assert(all_digits(t)) by {
            assert forall|i: int| 0 <= i < t.len() implies is_digit(#[trigger] t[i]) by {
                assert(t[i] == s[i]);
            }
        }
        lemma_digit_run(t);
        assert(is_digit(s[s.len() - 2]));
        assert((s[s.len() - 2] as u32) < 128);
        assert(t.push(s.last()) =~= s);
        assert(runs(s) =~= seq![s]);
    }
}

/// Strings of decimal digits (that fit in 64 bits) compare by their values.
pub proof fn law_digits_compare_by_value(a: Seq<char>, b: Seq<char>)
    requires
        a.len() > 0,
        b.len() > 0,
        all_digits(a),
        all_digits(b),
        digits_value(a) <= u64::MAX,
        digits_value(b) <= u64::MAX,
    ensures
        natural(a, b) == cmp_int(digits_value(a) as int, digits_value(b) as int),
{
    lemma_digit_run(a);
    lemma_digit_run(b);
    assert(crate::natural::tokens(a) =~= seq![TokenView::Number(digits_value(a))]);
    assert(crate::natural::tokens(b) =~= seq![TokenView::Number(digits_value(b))]);
    let ta = crate::natural::tokens(a);
    let tb = crate::natural::tokens(b);
    assert(ta.drop_first() =~= Seq::<TokenView>::empty());
    assert(tb.drop_first() =~= Seq::<TokenView>::empty());
    assert(tokens_cmp(ta.drop_first(), tb.drop_first()) == 0);
    assert(token_cmp(ta[0], tb[0]) == cmp_int(digits_value(a) as int, digits_value(b) as int));
    assert(natural(a, b) == tokens_cmp(ta, tb));
}


/// ASCII characters that are not digits.
pub open spec fn ascii_text(t: Seq<char>) -> bool {
    forall|i: int| 0 <= i < t.len() ==> (#[trigger] t[i] as u32) < 128 && !is_digit(t[i])
}

/// A non-empty run of ASCII non-digits is a single run.
proof fn lemma_text_run(t: Seq<char>)
    requires
        t.len() > 0,
        ascii_text(t),
    ensures
        runs(t) == seq![t],
    decreases t.len(),
{
    assert((t[t.len() - 1] as u32) < 128 && !is_digit(t[t.len() - 1]));
    if t.len() == 1 {
        assert(t =~= seq![t.last()]);
        assert(runs(t.drop_last()) =~= Seq::<Seq<char>>::empty());
    } else {
        let u = t.drop_last();
        assert(ascii_text(u)) by {
            assert forall|i: int| 0 <= i < u.len() implies (#[trigger] u[i] as u32) < 128 && !is_digit(u[i]) by {
                assert(u[i] == t[i]);
            }
        }
        lemma_text_run(u);
        assert((t[t.len() - 2] as u32) < 128 && !is_digit(t[t.len() - 2]));
        assert(u.push(t.last()) =~= t);
        assert(runs(t) =~= seq![t]);
    }
}

/// Text followed by digits makes two runs.
proof fn lemma_text_number_runs(t: Seq<char>, d: Seq<char>)
    requires
        t.len() > 0,
        ascii_text(t),
        d.len() > 0,
        all_digits(d),
    ensures
        runs(t + d) == seq![t, d],
    decreases d.len(),
{
    let s = t + d;
    assert(is_digit(d.last()) && (d.last() as u32) < 128);
    assert(s.last() == d.last());
    if d.len() == 1 {
        lemma_text_run(t);
        assert(s.drop_last() =~= t);
        assert(s[s.len() - 2] == t.last());
        assert((t[t.len() - 1] as u32) < 128 && !is_digit(t[t.len() - 1]));
        assert(d =~= seq![d.last()]);
        assert(runs(s) =~= seq![t, d]);
    } else {
        let e = d.drop_last();
        assert(all_digits(e)) by {
            assert forall|i: int| 0 <= i < e.len() implies is_digit(#[trigger] e[i]) by {
                assert(e[i] == d[i]);
            }
        }
        lemma_text_number_runs(t, e);
        assert(s.drop_last() =~= t + e);
        assert(s[s.len() - 2] == d[d.len() - 2]);
        assert(is_digit(d[d.len() - 2]) && (d[d.len() - 2] as u32) < 128);
        assert(e.push(d.last()) =~= d);
        assert(runs(s) =~= seq![t, d]);
    }
}

/// The same text followed by numbers compares by the numbers (`item2`
/// before `item10`).
pub proof fn law_text_then_number(t: Seq<char>, a: Seq<char>, b: Seq<char>)
    requires
        t.len() > 0,
        ascii_text(t),
        a.len() > 0,
        b.len() > 0,
        all_digits(a),
        all_digits(b),
        digits_value(a) <= u64::MAX,
        digits_value(b) <= u64::MAX,
    ensures
        natural(t + a, t + b) == cmp_int(digits_value(a) as int, digits_value(b) as int),
{
    lemma_text_number_runs(t, a);
    lemma_text_number_runs(t, b);
    assert(!all_digits(t)) by {
        assert(!is_digit(t[0]));
    }
    let ta = crate::natural::tokens(t + a);
    let tb = crate::natural::tokens(t + b);
    assert(ta =~= seq![TokenView::Text(t), TokenView::Number(digits_value(a))]);
    assert(tb =~= seq![TokenView::Text(t), TokenView::Number(digits_value(b))]);
    lemma_text_antisym(t, t);
    assert(token_cmp(ta[0], tb[0]) == 0);
    assert(ta.drop_first() =~= seq![TokenView::Number(digits_value(a))]);
    assert(tb.drop_first() =~= seq![TokenView::Number(digits_value(b))]);
    let ra = ta.drop_first();
    let rb = tb.drop_first();
    assert(ra.drop_first() =~= Seq::<TokenView>::empty());
    assert(rb.drop_first() =~= Seq::<TokenView>::empty());
    assert(tokens_cmp(ra.drop_first(), rb.drop_first()) == 0);
    assert(tokens_cmp(ra, rb) == cmp_int(digits_value(a) as int, digits_value(b) as int));
    assert(natural(t + a, t + b) == tokens_cmp(ta, tb));
}

} // verus!
