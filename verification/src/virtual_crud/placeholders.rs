//! The numbered placeholders of a statement's text: the numbers written after
//! each `$`, in order, and that a `SELECT` names exactly `$1` to `$n`, each once,
//! where `n` is the number of values it binds.

use vstd::prelude::*;
use vstd::string::*;

use crate::text::{all_digits, decimal, digits_value, is_digit, join, lemma_decimal_digits, replace_all};
use super::query::{cast_for, filter_sql, is_identifier, known_cast, operator_sql, pg_cast, placeholder, quoted, where_parts, where_sql};
use super::select::{order_clause, select_clause, select_list, select_sql, select_template};
use super::types::{ColumnMetaView, FilterOp, FilterView, QueryOptionsView, TableMetaView};

verus! {

/// Whether `s` holds no `$`.
pub open spec fn no_dollar(s: Seq<char>) -> bool {
    forall|i: int| 0 <= i < s.len() ==> s[i] != '$'
}

/// Whether every `$` of `s` is followed, within `s`, by a digit.
pub open spec fn dollars_numbered(s: Seq<char>) -> bool {
    forall|i: int| 0 <= i < s.len() && #[trigger] s[i] == '$' ==> i + 1 < s.len() && is_digit(s[i + 1])
}

/// Whether `s` does not start with a digit (so that a number before it ends).
pub open spec fn starts_safe(s: Seq<char>) -> bool {
    !(s.len() > 0 && is_digit(s[0]))
}

/// The number of leading digits of `s`.
pub open spec fn digit_run(s: Seq<char>) -> nat
    decreases s.len(),
{
    if s.len() > 0 && is_digit(s[0]) {
        1 + digit_run(s.drop_first())
    } else {
        0
    }
}

/// The number written by the leading digits of `s` (0 when there is none).
pub open spec fn leading_number(s: Seq<char>) -> nat {
    digits_value(s.take(digit_run(s) as int))
}

/// The numbers written after each `$` of `s`, in order (0 for a `$` that no digit
/// follows), as PostgreSQL reads the placeholders of a statement.
pub open spec fn dollar_tokens(s: Seq<char>) -> Seq<nat>
    decreases s.len(),
{
    if s.len() == 0 {
        Seq::empty()
    } else if s[0] == '$' {
        seq![leading_number(s.drop_first())] + dollar_tokens(s.drop_first())
    } else {
        dollar_tokens(s.drop_first())
    }
}

/// `k + 1`, `k + 2`, ..., `k + n`.
pub open spec fn count_from(k: nat, n: nat) -> Seq<nat> {
    Seq::new(n, |i: int| (k + i + 1) as nat)
}

pub proof fn lemma_no_dollar_tokens(s: Seq<char>)
    requires
        no_dollar(s),
    ensures
        dollar_tokens(s) == Seq::<nat>::empty(),
        dollars_numbered(s),
    decreases s.len(),
{
    if s.len() > 0 {
        lemma_no_dollar_tokens(s.drop_first());
    }
}

proof fn lemma_digit_run_bound(s: Seq<char>)
    ensures
        digit_run(s) <= s.len(),
    decreases s.len(),
{
    if s.len() > 0 {
        lemma_digit_run_bound(s.drop_first());
    }
}

proof fn lemma_digit_run_concat(a: Seq<char>, b: Seq<char>)
    requires
        starts_safe(b),
    ensures
        digit_run(a + b) == digit_run(a),
        (a + b).take(digit_run(a) as int) == a.take(digit_run(a) as int),
    decreases a.len(),
{
    if a.len() == 0 {
        assert(a + b =~= b);
    } else {
        assert((a + b).drop_first() =~= a.drop_first() + b);
        lemma_digit_run_concat(a.drop_first(), b);
        assert((a + b)[0] == a[0]);
        if is_digit(a[0]) {
            lemma_digit_run_bound(a);
            let n = digit_run(a) as int;
            assert((a + b).take(n) =~= seq![a[0]] + (a.drop_first() + b).take(n - 1));
            assert(a.take(n) =~= seq![a[0]] + a.drop_first().take(n - 1));
        } else {
            assert((a + b).take(0) =~= a.take(0));
        }
    }
}

proof fn lemma_digit_run_all(s: Seq<char>)
    requires
        all_digits(s),
    ensures
        digit_run(s) == s.len(),
    decreases s.len(),
{
    if s.len() > 0 {
        lemma_digit_run_all(s.drop_first());
    }
}

/// The numbers after the `$` of `a + b` are those of `a` then those of `b`, when
/// `b` does not continue a number that ends `a`.
pub proof fn lemma_tokens_concat(a: Seq<char>, b: Seq<char>)
    requires
        starts_safe(b),
    ensures
        dollar_tokens(a + b) == dollar_tokens(a) + dollar_tokens(b),
    decreases a.len(),
{
    if a.len() == 0 {
        assert(a + b =~= b);
    } else {
        assert((a + b).drop_first() =~= a.drop_first() + b);
        lemma_tokens_concat(a.drop_first(), b);
        assert((a + b)[0] == a[0]);
        if a[0] == '$' {
            lemma_digit_run_concat(a.drop_first(), b);
        }
        assert(dollar_tokens(a + b) =~= dollar_tokens(a) + dollar_tokens(b));
    }
}

pub proof fn lemma_numbered_concat(a: Seq<char>, b: Seq<char>)
    requires
        dollars_numbered(a),
        dollars_numbered(b),
    ensures
        dollars_numbered(a + b),
{
    assert forall|i: int| 0 <= i < (a + b).len() && #[trigger] (a + b)[i] == '$' implies i + 1 < (a + b).len() && is_digit(
        (a + b)[i + 1],
    ) by {
        if i < a.len() {
            assert(a[i] == '$');
        } else {
            assert(b[i - a.len()] == '$');
        }
    }
}

/// `$n` followed by text that neither holds a `$` nor starts with a digit names the
/// placeholder `n` alone.
pub proof fn lemma_dollar_number(n: nat, rest: Seq<char>)
    requires
        no_dollar(rest),
        starts_safe(rest),
    ensures
        dollar_tokens(seq!['$'] + decimal(n) + rest) == seq![n],
        dollars_numbered(seq!['$'] + decimal(n) + rest),
{
    let d = decimal(n);
    let s = seq!['$'] + d + rest;
    lemma_decimal_digits(n);
    lemma_digit_run_all(d);
    assert(s.drop_first() =~= d + rest);
    lemma_digit_run_concat(d, rest);
    assert(d.take(d.len() as int) =~= d);
    assert(leading_number(d + rest) == n);
    lemma_no_dollar_tokens(rest);
    assert forall|i: int| 0 <= i < d.len() implies d[i] != '$' by {
        assert(is_digit(d[i]));
    }
    assert(no_dollar(d));
    lemma_no_dollar_tokens(d);
    lemma_tokens_concat(d, rest);
    assert(no_dollar(d + rest)) by {
        assert forall|i: int| 0 <= i < (d + rest).len() implies (d + rest)[i] != '$' by {
            if i >= d.len() {
                assert((d + rest)[i] == rest[i - d.len()]);
            }
        }
    }
    lemma_no_dollar_tokens(d + rest);
    assert(dollar_tokens(s) =~= seq![n]);
    assert(dollars_numbered(s)) by {
        assert(is_digit(s[1]));
        assert forall|i: int| 0 <= i < s.len() && #[trigger] s[i] == '$' implies i + 1 < s.len() && is_digit(s[i + 1]) by {
            if i > 0 {
                assert(s[i] == (d + rest)[i - 1]);
            }
        }
    }
}

pub proof fn lemma_no_dollar_concat(a: Seq<char>, b: Seq<char>)
    requires
        no_dollar(a),
        no_dollar(b),
    ensures
        no_dollar(a + b),
{
    assert forall|i: int| 0 <= i < (a + b).len() implies (a + b)[i] != '$' by {
        if i >= a.len() {
            assert((a + b)[i] == b[i - a.len()]);
        }
    }
}

/// Replacing a marker `$X...` (whose second character is not a digit) leaves alone
/// a prefix whose every `$` is followed by a digit.
pub proof fn lemma_replace_after(a: Seq<char>, b: Seq<char>, pat: Seq<char>, rep: Seq<char>)
    requires
        pat.len() >= 2,
        pat[0] == '$',
        !is_digit(pat[1]),
        dollars_numbered(a),
    ensures
        replace_all(a + b, pat, rep) == a + replace_all(b, pat, rep),
    decreases a.len(),
{
    if a.len() == 0 {
        assert(a + b =~= b);
    } else {
        let s = a + b;
        assert(s.drop_first() =~= a.drop_first() + b);
        assert(dollars_numbered(a.drop_first())) by {
            let t = a.drop_first();
            assert forall|i: int| 0 <= i < t.len() && #[trigger] t[i] == '$' implies i + 1 < t.len() && is_digit(t[i + 1]) by {
                assert(a[i + 1] == '$');
            }
        }
        lemma_replace_after(a.drop_first(), b, pat, rep);
        if s.len() >= pat.len() {
            if s[0] == '$' {
                assert(s[1] == a[1]);
                assert(s.take(pat.len() as int)[1] != pat[1]);
            } else {
                assert(s.take(pat.len() as int)[0] != pat[0]);
            }
            assert(s.take(pat.len() as int) != pat);
            assert(replace_all(s, pat, rep) == seq![s[0]] + replace_all(s.drop_first(), pat, rep));
            assert(replace_all(s, pat, rep) =~= a + replace_all(b, pat, rep));
        } else {
            assert(b.len() < pat.len());
            assert(replace_all(b, pat, rep) == b);
        }
    }
}

/// Replacing a marker at the start of a text.
pub proof fn lemma_replace_head(b: Seq<char>, pat: Seq<char>, rep: Seq<char>)
    requires
        pat.len() > 0,
    ensures
        replace_all(pat + b, pat, rep) == rep + replace_all(b, pat, rep),
{
    let s = pat + b;
    assert(s.take(pat.len() as int) =~= pat);
    assert(s.skip(pat.len() as int) =~= b);
}

/// Replacing a marker that starts with `$` leaves a text without `$` alone.
pub proof fn lemma_replace_none(b: Seq<char>, pat: Seq<char>, rep: Seq<char>)
    requires
        pat.len() >= 2,
        pat[0] == '$',
        !is_digit(pat[1]),
        no_dollar(b),
    ensures
        replace_all(b, pat, rep) == b,
{
    lemma_no_dollar_tokens(b);
    lemma_replace_after(b, Seq::empty(), pat, rep);
    assert(b + Seq::<char>::empty() =~= b);
}

/// The numbers after the `$` of each part, part after part.
pub open spec fn tokens_all(parts: Seq<Seq<char>>) -> Seq<nat>
    decreases parts.len(),
{
    if parts.len() == 0 {
        Seq::empty()
    } else {
        tokens_all(parts.drop_last()) + dollar_tokens(parts.last())
    }
}

/// Whether a part is safe to join: not empty, not starting with a digit, and every
/// `$` in it followed by a digit.
pub open spec fn joinable(p: Seq<char>) -> bool {
    p.len() > 0 && starts_safe(p) && dollars_numbered(p)
}

/// Joining parts with a separator without `$` keeps the numbers of the parts.
pub proof fn lemma_join_tokens(parts: Seq<Seq<char>>, sep: Seq<char>)
    requires
        no_dollar(sep),
        sep.len() > 0,
        starts_safe(sep),
        forall|i: int| 0 <= i < parts.len() ==> joinable(#[trigger] parts[i]),
    ensures
        dollar_tokens(join(parts, sep)) == tokens_all(parts),
        dollars_numbered(join(parts, sep)),
        parts.len() > 0 ==> joinable(join(parts, sep)),
    decreases parts.len(),
{
    lemma_no_dollar_tokens(sep);
    if parts.len() == 0 {
        lemma_no_dollar_tokens(Seq::empty());
    } else if parts.len() == 1 {
        assert(parts[0] == parts.last());
        assert(tokens_all(parts.drop_last()) == Seq::<nat>::empty());
        assert(tokens_all(parts) =~= dollar_tokens(parts[0]));
    } else {
        let p0 = parts.drop_last();
        assert forall|i: int| 0 <= i < p0.len() implies joinable(#[trigger] p0[i]) by {
            assert(p0[i] == parts[i]);
        }
        lemma_join_tokens(p0, sep);
        let last = parts.last();
        assert(joinable(parts[parts.len() - 1]));
        let j0 = join(p0, sep);
        assert(join(parts, sep) == j0 + sep + last);
        lemma_tokens_concat(sep, last);
        lemma_tokens_concat(j0, sep + last);
        assert(j0 + sep + last =~= j0 + (sep + last));
        lemma_numbered_concat(sep, last);
        lemma_numbered_concat(j0, sep + last);
        assert(dollar_tokens(join(parts, sep)) =~= tokens_all(parts));
        assert((j0 + sep + last)[0] == j0[0]);
    }
}

/// A quoted identifier holds no `$` and starts with `"`.
pub proof fn lemma_quoted_identifier(c: Seq<char>)
    requires
        is_identifier(c),
    ensures
        no_dollar(quoted(c)),
        quoted(c).len() > 0,
        quoted(c)[0] == '"',
{
    let q = quoted(c);
    assert forall|i: int| 0 <= i < q.len() implies q[i] != '$' by {
        if 1 <= i < q.len() - 1 {
            assert(q[i] == c[i - 1]);
        }
    }
}

proof fn lemma_cast_no_dollar(x: Seq<char>)
    ensures
        no_dollar(cast_for(x)),
{
    let c = cast_for(x);
    assert(known_cast(c));
    reveal_strlit("int2");
    reveal_strlit("int4");
    reveal_strlit("int8");
    reveal_strlit("float4");
    reveal_strlit("float8");
    reveal_strlit("numeric");
    reveal_strlit("bool");
    reveal_strlit("text");
    reveal_strlit("uuid");
    reveal_strlit("timestamptz");
    reveal_strlit("timestamp");
    reveal_strlit("date");
    reveal_strlit("time");
    reveal_strlit("jsonb");
    reveal_strlit("json");
}

proof fn lemma_operator_no_dollar(op: FilterOp)
    ensures
        no_dollar(operator_sql(op)),
{
    reveal_strlit(" = ");
    reveal_strlit(" <> ");
    reveal_strlit(" > ");
    reveal_strlit(" >= ");
    reveal_strlit(" < ");
    reveal_strlit(" <= ");
    reveal_strlit(" LIKE ");
    reveal_strlit(" ILIKE ");
    reveal_strlit(" IS ");
}

/// A placeholder `$n::cast` with a cast from the list names `n` alone.
proof fn lemma_placeholder_tokens(n: nat, cast: Seq<char>)
    requires
        no_dollar(cast),
    ensures
        dollar_tokens(placeholder(n, cast)) == seq![n],
        dollars_numbered(placeholder(n, cast)),
        placeholder(n, cast).len() > 0,
        placeholder(n, cast)[0] == '$',
{
    reveal_strlit("::");
    let rest = "::"@ + cast;
    assert(no_dollar("::"@));
    lemma_no_dollar_concat("::"@, cast);
    assert(rest[0] == ':');
    lemma_dollar_number(n, rest);
    assert(placeholder(n, cast) =~= seq!['$'] + decimal(n) + rest);
}

/// The condition of one filter names the placeholders of the values it binds, in
/// order from `k + 1`.
pub proof fn lemma_filter_tokens(cols: Seq<ColumnMetaView>, f: FilterView, k: nat)
    ensures
        filter_sql(cols, f, k) matches Ok(x) ==> dollar_tokens(x.0) == count_from(k, x.1.len()) && joinable(x.0),
{
    if let Ok(x) = filter_sql(cols, f, k) {
        let col = quoted(f.column);
        lemma_quoted_identifier(f.column);
        lemma_operator_no_dollar(f.op);
        lemma_no_dollar_concat(col, operator_sql(f.op));
        let head = col + operator_sql(f.op);
        lemma_no_dollar_tokens(head);
        if f.op == FilterOp::Is {
            reveal_strlit(" IS NULL");
            reveal_strlit(" IS NOT NULL");
            assert(no_dollar(" IS NULL"@));
            assert(no_dollar(" IS NOT NULL"@));
            lemma_no_dollar_concat(col, " IS NULL"@);
            lemma_no_dollar_concat(col, " IS NOT NULL"@);
            lemma_no_dollar_tokens(x.0);
            assert(x.0[0] == '"');
            assert(count_from(k, 0) =~= Seq::<nat>::empty());
        } else {
            let cast = if f.op == FilterOp::Like || f.op == FilterOp::ILike {
                "text"@
            } else {
                pg_cast(col_type_of(cols, f))
            };
            reveal_strlit("text");
            lemma_cast_no_dollar(Seq::empty());
            lemma_cast_no_dollar(crate::text::unicode_lowercase(col_type_of(cols, f)));
            assert(no_dollar(cast));
            lemma_placeholder_tokens(k + 1, cast);
            assert(x.0 == head + placeholder(k + 1, cast));
            lemma_tokens_concat(head, placeholder(k + 1, cast));
            lemma_numbered_concat(head, placeholder(k + 1, cast));
            assert(x.1.len() == 1);
            assert(count_from(k, 1) =~= seq![k + 1]);
            assert(dollar_tokens(x.0) =~= seq![k + 1]);
            assert(x.0[0] == head[0]);
        }
    }
}

/// The type of a filter's column (meaningful when the column is known).
pub open spec fn col_type_of(cols: Seq<ColumnMetaView>, f: FilterView) -> Seq<char> {
    super::query::col_type(cols, f.column)->Some_0
}

/// The conditions of a `WHERE` name the placeholders of their values, in order
/// from `k + 1`.
pub proof fn lemma_where_tokens(cols: Seq<ColumnMetaView>, fs: Seq<FilterView>, k: nat)
    ensures
        where_parts(cols, fs, k).0 matches Ok(pieces) ==> {
            &&& tokens_all(pieces) == count_from(k, where_parts(cols, fs, k).1.len())
            &&& forall|i: int| 0 <= i < pieces.len() ==> joinable(#[trigger] pieces[i])
        },
    decreases fs.len(),
{
    if fs.len() > 0 {
        let f0 = fs.drop_last();
        lemma_where_tokens(cols, f0, k);
        if let Ok(pieces) = where_parts(cols, fs, k).0 {
            let pieces0 = where_parts(cols, f0, k).0->Ok_0;
            let pushed0 = where_parts(cols, f0, k).1;
            let x = filter_sql(cols, fs.last(), k + pushed0.len())->Ok_0;
            lemma_filter_tokens(cols, fs.last(), k + pushed0.len());
            assert(pieces == pieces0.push(x.0));
            assert(pieces.drop_last() =~= pieces0);
            assert(tokens_all(pieces) == tokens_all(pieces0) + dollar_tokens(x.0));
            assert(count_from(k, pushed0.len()) + count_from((k + pushed0.len()) as nat, x.1.len()) =~= count_from(
                k,
                pushed0.len() + x.1.len(),
            ));
            assert forall|i: int| 0 <= i < pieces.len() implies joinable(#[trigger] pieces[i]) by {
                if i < pieces0.len() {
                    assert(pieces[i] == pieces0[i]);
                }
            }
        }
    } else {
        if let Ok(pieces) = where_parts(cols, fs, k).0 {
            assert(count_from(k, 0) =~= Seq::<nat>::empty());
        }
    }
}

/// The text of a `WHERE` fragment names the placeholders of its values, in order
/// from `k + 1`, and every `$` in it is followed by a digit.
pub proof fn lemma_where_sql_tokens(cols: Seq<ColumnMetaView>, fs: Seq<FilterView>, k: nat)
    ensures
        where_sql(cols, fs, k).0 matches Ok(w) ==> dollar_tokens(w) == count_from(k, where_sql(cols, fs, k).1.len())
            && dollars_numbered(w) && starts_safe(w),
{
    lemma_where_tokens(cols, fs, k);
    if let Ok(w) = where_sql(cols, fs, k).0 {
        let pieces = where_parts(cols, fs, k).0->Ok_0;
        lemma_where_parts_len(cols, fs, k);
        if fs.len() == 0 {
            lemma_no_dollar_tokens(w);
            assert(count_from(k, 0) =~= Seq::<nat>::empty());
        } else {
            reveal_strlit(" AND ");
            reveal_strlit(" WHERE ");
            assert(no_dollar(" AND "@));
            assert(no_dollar(" WHERE "@));
            lemma_join_tokens(pieces, " AND "@);
            let j = join(pieces, " AND "@);
            lemma_no_dollar_tokens(" WHERE "@);
            lemma_tokens_concat(" WHERE "@, j);
            lemma_numbered_concat(" WHERE "@, j);
            assert(w == " WHERE "@ + j);
            assert(dollar_tokens(w) =~= tokens_all(pieces));
        }
    }
}

proof fn lemma_where_parts_len(cols: Seq<ColumnMetaView>, fs: Seq<FilterView>, k: nat)
    ensures
        where_parts(cols, fs, k).0 matches Ok(pieces) ==> pieces.len() == fs.len(),
    decreases fs.len(),
{
    if fs.len() > 0 {
        lemma_where_parts_len(cols, fs.drop_last(), k);
    }
}

/// The end of a `SELECT` after its `ORDER BY`.
pub open spec fn select_tail() -> Seq<char> {
    "\n        ) t\n        "@
}

proof fn lemma_marker_literals()
    ensures
        " LIMIT $LIM"@ == " LIMIT "@ + "$LIM"@,
        " OFFSET $OFF"@ == " OFFSET "@ + "$OFF"@,
        "$LIM"@.len() == 4 && "$LIM"@[0] == '$' && !is_digit("$LIM"@[1]),
        "$OFF"@.len() == 4 && "$OFF"@[0] == '$' && !is_digit("$OFF"@[1]),
        no_dollar(" LIMIT "@) && starts_safe(" LIMIT "@) && " LIMIT "@.len() > 0,
        no_dollar(" OFFSET "@) && starts_safe(" OFFSET "@) && " OFFSET "@.len() > 0,
        no_dollar(select_tail()) && starts_safe(select_tail()),
        no_dollar("$OFF"@.drop_first()),
        "$OFF"@ != "$LIM"@,
{
    reveal_strlit(" LIMIT $LIM");
    reveal_strlit(" OFFSET $OFF");
    reveal_strlit(" LIMIT ");
    reveal_strlit(" OFFSET ");
    reveal_strlit("$LIM");
    reveal_strlit("$OFF");
    reveal_strlit("\n        ) t\n        ");
    assert(" LIMIT $LIM"@ =~= " LIMIT "@ + "$LIM"@);
    assert(" OFFSET $OFF"@ =~= " OFFSET "@ + "$OFF"@);
    assert("$OFF"@[1] != "$LIM"@[1]);
}

/// A `$` marker other than `pat` at the head of a text without other `$` stays.
proof fn lemma_replace_other(q: Seq<char>, b: Seq<char>, pat: Seq<char>, rep: Seq<char>)
    requires
        q.len() == pat.len(),
        pat.len() > 0,
        q != pat,
        pat[0] == '$',
        pat.len() >= 2,
        !is_digit(pat[1]),
        no_dollar(q.drop_first()),
        no_dollar(b),
    ensures
        replace_all(q + b, pat, rep) == q + b,
{
    let s = q + b;
    assert(s.take(pat.len() as int) =~= q);
    assert(s.drop_first() =~= q.drop_first() + b);
    lemma_no_dollar_concat(q.drop_first(), b);
    lemma_replace_none(q.drop_first() + b, pat, rep);
    assert(seq![s[0]] + s.drop_first() =~= s);
}

/// Numbering the `LIMIT` and `OFFSET` markers after a prefix that names
/// `$1..$nw` gives a text that names `$1..$n`, each once, in order.
pub proof fn lemma_markers(a: Seq<char>, nw: nat, lim: bool, off: bool)
    requires
        dollars_numbered(a),
        dollar_tokens(a) == count_from(0, nw),
    ensures
        ({
            let nl: nat = if lim { 1 } else { 0 };
            let s0 = a + (if lim { " LIMIT $LIM"@ } else { Seq::empty() }) + (if off { " OFFSET $OFF"@ } else {
                Seq::empty()
            }) + select_tail();
            let s1 = if lim { replace_all(s0, "$LIM"@, bare_number(nw + 1)) } else { s0 };
            let s2 = if off { replace_all(s1, "$OFF"@, bare_number(nw + nl + 1)) } else { s1 };
            dollar_tokens(s2) == count_from(0, nw + nl + if off { 1nat } else { 0nat })
        }),
{
    lemma_marker_literals();
    let t = select_tail();
    let nl: nat = if lim { 1 } else { 0 };
    let b1 = bare_number(nw + 1);
    let b2 = bare_number(nw + nl + 1);
    lemma_dollar_number(nw + 1, Seq::empty());
    lemma_dollar_number(nw + nl + 1, Seq::empty());
    assert(seq!['$'] + decimal(nw + 1) + Seq::<char>::empty() =~= b1);
    assert(seq!['$'] + decimal(nw + nl + 1) + Seq::<char>::empty() =~= b2);
    let lim_p = " LIMIT "@;
    let off_p = " OFFSET "@;
    let lm = "$LIM"@;
    let om = "$OFF"@;
    lemma_no_dollar_tokens(lim_p);
    lemma_no_dollar_tokens(off_p);
    lemma_no_dollar_tokens(t);
    let s0 = a + (if lim { " LIMIT $LIM"@ } else { Seq::empty() }) + (if off { " OFFSET $OFF"@ } else {
        Seq::empty()
    }) + t;
    // the text after the markers are numbered
    let r = a + (if lim { lim_p + b1 } else { Seq::empty() }) + (if off { off_p + b2 } else { Seq::empty() }) + t;
    let s1 = if lim { replace_all(s0, lm, b1) } else { s0 };
    let mid = a + (if lim { lim_p + b1 } else { Seq::empty() });
    // after LIMIT
    assert(s1 == mid + (if off { off_p + om } else { Seq::empty() }) + t) by {
        if lim {
            let rest = (if off { off_p + om } else { Seq::empty() }) + t;
            assert(s0 =~= (a + lim_p) + (lm + rest));
            lemma_numbered_concat(a, lim_p);
            lemma_replace_after(a + lim_p, lm + rest, lm, b1);
            lemma_replace_head(rest, lm, b1);
            if off {
                lemma_replace_after(off_p, om + t, lm, b1);
                lemma_replace_other(om, t, lm, b1);
                assert(rest =~= off_p + (om + t));
            } else {
                lemma_replace_none(t, lm, b1);
                assert(rest =~= t);
            }
            assert(s1 =~= mid + (if off { off_p + om } else { Seq::empty() }) + t);
        } else {
            assert(s0 =~= mid + (if off { off_p + om } else { Seq::empty() }) + t);
        }
    }
    let s2 = if off { replace_all(s1, om, b2) } else { s1 };
    assert(dollars_numbered(mid)) by {
        if lim {
            lemma_numbered_concat(lim_p, b1);
            lemma_numbered_concat(a, lim_p + b1);
        } else {
            assert(mid =~= a);
        }
    }
    assert(s2 == r) by {
        if off {
            lemma_numbered_concat(mid, off_p);
            assert(s1 =~= (mid + off_p) + (om + t));
            lemma_replace_after(mid + off_p, om + t, om, b2);
            lemma_replace_head(t, om, b2);
            lemma_replace_none(t, om, b2);
            assert(s2 =~= r);
        } else {
            assert(s1 =~= r);
        }
    }
    // the numbers of the result
    assert(dollar_tokens(r) == count_from(0, nw + nl + if off { 1nat } else { 0nat })) by {
        let lpart = if lim { lim_p + b1 } else { Seq::empty() };
        let opart = if off { off_p + b2 } else { Seq::empty() };
        lemma_tokens_concat(lim_p, b1);
        lemma_tokens_concat(off_p, b2);
        lemma_no_dollar_tokens(Seq::empty());
        assert(dollar_tokens(lpart) == if lim { seq![nw + 1] } else { Seq::<nat>::empty() });
        assert(dollar_tokens(opart) == if off { seq![nw + nl + 1] } else { Seq::<nat>::empty() });
        assert(starts_safe(opart + t)) by {
            if off {
                assert((opart + t)[0] == off_p[0]);
            } else {
                assert(opart + t =~= t);
            }
        }
        assert(starts_safe(lpart + (opart + t))) by {
            if lim {
                assert((lpart + (opart + t))[0] == lim_p[0]);
            } else {
                assert(lpart + (opart + t) =~= opart + t);
            }
        }
        lemma_tokens_concat(opart, t);
        lemma_tokens_concat(lpart, opart + t);
        lemma_tokens_concat(a, lpart + (opart + t));
        assert(r =~= a + (lpart + (opart + t)));
        assert(dollar_tokens(r) =~= count_from(0, nw + nl + if off { 1nat } else { 0nat }));
    }
}

/// `$n`, without a cast.
pub open spec fn bare_number(n: nat) -> Seq<char> {
    seq!['$'] + decimal(n)
}

proof fn lemma_token_at(s: Seq<char>, i: int)
    requires
        0 <= i < s.len(),
        s[i] == '$',
    ensures
        dollar_tokens(s).contains(leading_number(s.skip(i + 1))),
    decreases i,
{
    if i == 0 {
        assert(s.drop_first() =~= s.skip(1));
        assert(dollar_tokens(s)[0] == leading_number(s.skip(1)));
    } else {
        let t = s.drop_first();
        assert(t[i - 1] == '$');
        lemma_token_at(t, i - 1);
        assert(t.skip(i) =~= s.skip(i + 1));
        let k = choose|k: int| 0 <= k < dollar_tokens(t).len() && dollar_tokens(t)[k] == leading_number(t.skip(i));
        if s[0] == '$' {
            assert(dollar_tokens(s)[k + 1] == dollar_tokens(t)[k]);
        } else {
            assert(dollar_tokens(s)[k] == dollar_tokens(t)[k]);
        }
    }
}

/// A text whose every `$` is followed by a number of at least 1 holds no `$`
/// followed by a letter, hence no marker `$LIM` or `$OFF`.
pub proof fn lemma_no_marker(s: Seq<char>, i: int)
    requires
        !dollar_tokens(s).contains(0nat),
        0 <= i,
        i + 4 <= s.len(),
    ensures
        s.subrange(i, i + 4) != "$LIM"@,
        s.subrange(i, i + 4) != "$OFF"@,
{
    lemma_marker_literals();
    reveal_strlit("$LIM");
    reveal_strlit("$OFF");
    if s[i] == '$' && !is_digit(s[i + 1]) {
        lemma_token_at(s, i);
        let r = s.skip(i + 1);
        assert(r[0] == s[i + 1]);
        assert(digit_run(r) == 0);
        assert(r.take(0) =~= Seq::<char>::empty());
        assert(leading_number(r) == 0);
    }
    if s.subrange(i, i + 4) == "$LIM"@ {
        assert(s.subrange(i, i + 4)[0] == s[i]);
        assert(s.subrange(i, i + 4)[1] == s[i + 1]);
    }
    if s.subrange(i, i + 4) == "$OFF"@ {
        assert(s.subrange(i, i + 4)[0] == s[i]);
        assert(s.subrange(i, i + 4)[1] == s[i + 1]);
    }
}

pub proof fn lemma_join_no_dollar(parts: Seq<Seq<char>>, sep: Seq<char>)
    requires
        no_dollar(sep),
        forall|i: int| 0 <= i < parts.len() ==> no_dollar(#[trigger] parts[i]),
    ensures
        no_dollar(join(parts, sep)),
    decreases parts.len(),
{
    if parts.len() == 1 {
        assert(no_dollar(parts[0]));
    } else if parts.len() > 1 {
        let p0 = parts.drop_last();
        assert forall|i: int| 0 <= i < p0.len() implies no_dollar(#[trigger] p0[i]) by {
            assert(p0[i] == parts[i]);
        }
        lemma_join_no_dollar(p0, sep);
        assert(no_dollar(parts[parts.len() - 1]));
        lemma_no_dollar_concat(join(p0, sep), sep);
        lemma_no_dollar_concat(join(p0, sep) + sep, parts.last());
    }
}

proof fn lemma_select_list_no_dollar(cols: Seq<ColumnMetaView>, sel: Seq<Seq<char>>)
    ensures
        select_list(cols, sel) matches Ok(q) ==> forall|i: int| 0 <= i < q.len() ==> no_dollar(#[trigger] q[i]),
    decreases sel.len(),
{
    if sel.len() > 0 {
        lemma_select_list_no_dollar(cols, sel.drop_last());
        if let Ok(q) = select_list(cols, sel) {
            let q0 = select_list(cols, sel.drop_last())->Ok_0;
            lemma_quoted_identifier(sel.last());
            assert forall|i: int| 0 <= i < q.len() implies no_dollar(#[trigger] q[i]) by {
                if i < q0.len() {
                    assert(q[i] == q0[i]);
                }
            }
        }
    }
}

/// A projection and an ordering that were built hold no `$`.
proof fn lemma_clauses_no_dollar(cols: Seq<ColumnMetaView>, opts: QueryOptionsView)
    ensures
        select_clause(cols, opts.select) matches Ok(x) ==> no_dollar(x),
        order_clause(cols, opts.order_by) matches Ok(o) ==> no_dollar(o) && starts_safe(o),
{
    reveal_strlit("*");
    reveal_strlit(", ");
    reveal_strlit(" ORDER BY ");
    reveal_strlit(" ");
    reveal_strlit("DESC");
    reveal_strlit("ASC");
    if let Some(sel) = opts.select {
        lemma_select_list_no_dollar(cols, sel);
        if let Ok(q) = select_list(cols, sel) {
            lemma_join_no_dollar(q, ", "@);
        }
    }
    if let Some((c, desc)) = opts.order_by {
        if order_clause(cols, opts.order_by) is Ok {
            lemma_quoted_identifier(c);
            lemma_no_dollar_concat(" ORDER BY "@, quoted(c));
            lemma_no_dollar_concat(" ORDER BY "@ + quoted(c), " "@);
            lemma_no_dollar_concat(" ORDER BY "@ + quoted(c) + " "@, if desc { "DESC"@ } else { "ASC"@ });
        }
    }
}

/// The statement of a `SELECT` that was built names exactly the placeholders `$1`
/// to `$n`, each once and in order, where `n` is the number of values it binds, so
/// that neither marker `$LIM` nor `$OFF` is left in it (a `$` that no digit follows
/// would count as 0). The table's schema and name are taken to hold no `$`.
pub proof fn lemma_select_placeholders(meta: TableMetaView, opts: QueryOptionsView)
    requires
        no_dollar(meta.schema),
        no_dollar(meta.name),
    ensures
        select_sql(meta, opts) matches Ok(x) ==> {
            &&& dollar_tokens(x.0) == count_from(0, x.1.len())
            &&& forall|i: int|
                0 <= i && i + 4 <= x.0.len() ==> #[trigger] x.0.subrange(i, i + 4) != "$LIM"@ && x.0.subrange(i, i + 4)
                    != "$OFF"@
        },
{
    if let Ok(x) = select_sql(meta, opts) {
        let cols = meta.columns;
        let sel = select_clause(cols, opts.select)->Ok_0;
        let w = where_sql(cols, opts.filters, 0).0->Ok_0;
        let wb = where_sql(cols, opts.filters, 0).1;
        let o = order_clause(cols, opts.order_by)->Ok_0;
        lemma_clauses_no_dollar(cols, opts);
        lemma_where_sql_tokens(cols, opts.filters, 0);
        let t1 = "\n        SELECT row_to_json(t) AS data\n        FROM (\n            SELECT "@;
        let t2 = "\n            FROM \""@;
        let t3 = "\".\""@;
        let t4 = "\"\n            "@;
        reveal_strlit("\n        SELECT row_to_json(t) AS data\n        FROM (\n            SELECT ");
        reveal_strlit("\n            FROM \"");
        reveal_strlit("\".\"");
        reveal_strlit("\"\n            ");
        assert(no_dollar(t1) && no_dollar(t2) && no_dollar(t3) && no_dollar(t4));
        lemma_no_dollar_concat(t1, sel);
        lemma_no_dollar_concat(t1 + sel, t2);
        lemma_no_dollar_concat(t1 + sel + t2, meta.schema);
        lemma_no_dollar_concat(t1 + sel + t2 + meta.schema, t3);
        lemma_no_dollar_concat(t1 + sel + t2 + meta.schema + t3, meta.name);
        lemma_no_dollar_concat(t1 + sel + t2 + meta.schema + t3 + meta.name, t4);
        let p = t1 + sel + t2 + meta.schema + t3 + meta.name + t4;
        lemma_no_dollar_tokens(p);
        lemma_no_dollar_tokens(o);
        lemma_tokens_concat(p, w);
        lemma_tokens_concat(p + w, o);
        lemma_numbered_concat(p, w);
        lemma_numbered_concat(p + w, o);
        let a = p + w + o;
        assert(dollar_tokens(a) =~= count_from(0, wb.len()));
        let lim = opts.limit is Some;
        let off = opts.offset is Some;
        lemma_markers(a, wb.len(), lim, off);
        assert(select_template(meta, sel, w, o, lim, off) == a + (if lim { " LIMIT $LIM"@ } else { Seq::empty() })
            + (if off { " OFFSET $OFF"@ } else { Seq::empty() }) + select_tail());
        assert(forall|n: nat| super::select::bare_placeholder(n) == #[trigger] bare_number(n));
        assert(dollar_tokens(x.0) == count_from(0, x.1.len()));
        assert(!dollar_tokens(x.0).contains(0nat)) by {
            if dollar_tokens(x.0).contains(0nat) {
                let k = choose|k: int| 0 <= k < dollar_tokens(x.0).len() && dollar_tokens(x.0)[k] == 0nat;
                assert(count_from(0, x.1.len())[k] == k + 1);
            }
        }
        assert forall|i: int| 0 <= i && i + 4 <= x.0.len() implies #[trigger] x.0.subrange(i, i + 4) != "$LIM"@
            && x.0.subrange(i, i + 4) != "$OFF"@ by {
            lemma_no_marker(x.0, i);
        }
    }
}

} // verus!
