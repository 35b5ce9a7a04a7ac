//! What the names of runs promise: ids sort by time, and so do documents and timestamps.

use crate::calendar::{
    day_number, days_before_month, is_timestamp, iso, later_days_have_later_dates,
    one_day_one_date, padded, timestamp_on, years_follow_each_other,
};
use crate::exec_laws::stands_between;
use crate::paths::path_join;
use crate::schema::{
    digits_of, document_name, document_path, ends_time, id_symbol, id_text, id_value,
    is_alphanumeric, month_text, next_value, short_id, slug_text, stamp_digits, stamp_text, RunV,
    ID_ALPHABET, RANDOM_SPAN, TIME_SPAN,
};
use crate::text::{
    all_digits, contains_text, dec, decimal_reads_back, digit, digits_value, find, find_is,
    is_digit, text_lt, until, until_is_take,
};
use vstd::prelude::*;

verus! {

// ---------------------------------------------------------------- order of texts

/// Texts that differ within an equal length order alike, whatever stands around.
pub proof fn order_within(p: Seq<char>, x: Seq<char>, y: Seq<char>, s: Seq<char>, t: Seq<char>)
    requires
        text_lt(x, y),
        x.len() == y.len(),
    ensures
        text_lt(p + x + s, p + y + t),
    decreases p.len() + x.len(),
{
    let (a, b) = (p + x + s, p + y + t);
    if p.len() > 0 {
        assert(a.drop_first() =~= p.drop_first() + x + s);
        assert(b.drop_first() =~= p.drop_first() + y + t);
        assert(a[0] == p[0] && b[0] == p[0]);
        order_within(p.drop_first(), x, y, s, t);
    } else {
        assert(a[0] == x[0] && b[0] == y[0]);
        if x[0] == y[0] {
            assert(a.drop_first() =~= p + x.drop_first() + s);
            assert(b.drop_first() =~= p + y.drop_first() + t);
            order_within(p, x.drop_first(), y.drop_first(), s, t);
        }
    }
}

/// Runs of digits of one length order as the numbers they write.
pub proof fn digits_order(x: Seq<char>, y: Seq<char>)
    requires
        x.len() == y.len(),
        all_digits(x),
        all_digits(y),
    ensures
        digits_value(x) < digits_value(y) ==> text_lt(x, y),
        digits_value(x) == digits_value(y) ==> x == y,
    decreases x.len(),
{
    if x.len() == 0 {
        assert(x =~= y);
    } else {
        let (a, b) = (x.drop_last(), y.drop_last());
        assert(is_digit(x[x.len() - 1]) && is_digit(y[y.len() - 1]));
        assert forall|i: int| 0 <= i < a.len() implies is_digit(#[trigger] a[i]) by {
            assert(is_digit(x[i]));
        }
        assert forall|i: int| 0 <= i < b.len() implies is_digit(#[trigger] b[i]) by {
            assert(is_digit(y[i]));
        }
        digits_order(a, b);
        let none = Seq::<char>::empty();
        assert(x =~= none + a + seq![x.last()]);
        assert(y =~= none + b + seq![y.last()]);
        if digits_value(a) < digits_value(b) {
            order_within(none, a, b, seq![x.last()], seq![y.last()]);
        } else if digits_value(a) == digits_value(b) {
            if digits_value(x) < digits_value(y) {
                let (c, d) = (seq![x.last()], seq![y.last()]);
                assert(text_lt(c, d));
                order_within(a, c, d, none, none);
                assert(x =~= a + c + none);
                assert(y =~= b + d + none);
            } else if digits_value(x) == digits_value(y) {
                assert(x =~= y);
            }
        }
    }
}

// ---------------------------------------------------------------- ids

/// An id has 26 characters, all of the alphabet.
pub proof fn id_shape(v: nat, n: nat)
    ensures
        id_text(v, n).len() == n,
        forall|i: int| 0 <= i < n ==> ID_ALPHABET@.contains(#[trigger] id_text(v, n)[i]),
    decreases n,
{
    reveal_strlit("0123456789ABCDEFGHJKMNPQRSTVWXYZ");
    if n > 0 {
        id_shape(v / 32, (n - 1) as nat);
        let s = id_text(v, n);
        let t = id_text(v / 32, (n - 1) as nat);
        assert forall|i: int| 0 <= i < n implies ID_ALPHABET@.contains(#[trigger] s[i]) by {
            if i < t.len() {
                assert(s[i] == t[i]);
            } else {
                assert(s[i] == ID_ALPHABET@[(v % 32) as int]);
            }
        }
    }
}

pub open spec fn power32(n: nat) -> nat
    decreases n,
{
    if n == 0 {
        1
    } else {
        32 * power32((n - 1) as nat)
    }
}

proof fn symbols_ascend(a: nat, b: nat)
    requires
        a < b < 32,
    ensures
        (id_symbol(a) as int) < id_symbol(b) as int,
{
    reveal_strlit("0123456789ABCDEFGHJKMNPQRSTVWXYZ");
    if a < 10 && b < 10 {
    } else if b < 18 {
    } else if b < 20 {
    } else if b < 22 {
    } else if b < 27 {
    }
}

/// Ids order as their values: a listing by name reads by time.
pub proof fn ids_order(a: nat, b: nat, n: nat)
    requires
        a < b < power32(n),
    ensures
        text_lt(id_text(a, n), id_text(b, n)),
    decreases n,
{
    if n > 0 {
        let m = (n - 1) as nat;
        let (x, y) = (id_text(a / 32, m), id_text(b / 32, m));
        let (c, d) = (seq![id_symbol(a % 32)], seq![id_symbol(b % 32)]);
        let none = Seq::<char>::empty();
        id_shape(a / 32, m);
        id_shape(b / 32, m);
        assert(id_text(a, n) =~= none + x + c);
        assert(id_text(b, n) =~= none + y + d);
        if a / 32 < b / 32 {
            assert(b / 32 < power32(m));
            ids_order(a / 32, b / 32, m);
            order_within(none, x, y, c, d);
        } else {
            assert(a / 32 == b / 32 && a % 32 < b % 32);
            symbols_ascend(a % 32, b % 32);
            assert(text_lt(c, d));
            order_within(x, c, d, none, none);
            assert(id_text(a, n) =~= x + c + none);
            assert(id_text(b, n) =~= y + d + none);
        }
    }
}

/// Consecutive ids in one process never sort backwards and never collide.
pub proof fn consecutive_ids_increase(last: u128, value: nat)
    requires
        last < u128::MAX,
        value <= u128::MAX,
    ensures
        text_lt(id_text(last as nat, 26), id_text(next_value(last as nat, value), 26)),
{
    reveal_with_fuel(power32, 27);
    assert(power32(26) > u128::MAX);
    ids_order(last as nat, next_value(last as nat, value), 26);
}

proof fn id_head(v: nat, n: nat, k: nat)
    requires
        k <= n,
    ensures
        id_text(v, n).take(k as int) == id_text(v / power32((n - k) as nat), k),
    decreases n,
{
    id_shape(v, n);
    if k == n {
        assert(power32(0) == 1);
        assert(v / 1 == v);
        assert(id_text(v, n).take(k as int) =~= id_text(v, n));
    } else {
        let m = (n - 1) as nat;
        id_head(v / 32, m, k);
        id_shape(v / 32, m);
        assert(id_text(v, n).take(k as int) =~= id_text(v / 32, m).take(k as int));
        let p = power32((m - k) as nat);
        power32_positive((m - k) as nat);
        vstd::arithmetic::div_mod::lemma_div_denominator(v as int, 32, p as int);
        assert(power32((n - k) as nat) == 32 * p);
    }
}

proof fn power32_positive(n: nat)
    ensures
        power32(n) > 0,
    decreases n,
{
    if n > 0 {
        power32_positive((n - 1) as nat);
    }
}

/// The first ten characters of an id carry its time, in milliseconds: nothing of the
/// random part reaches them.
pub proof fn ids_start_with_their_time(millis: u128, random: nat)
    requires
        random < RANDOM_SPAN,
    ensures
        id_text(id_value(millis, random), 26).take(10) == id_text((millis % TIME_SPAN) as nat, 10),
{
    reveal_with_fuel(power32, 17);
    assert(power32(16) == RANDOM_SPAN);
    let v = id_value(millis, random);
    id_head(v, 26, 10);
    let ms = (millis % TIME_SPAN) as int;
    assert(v as int / (RANDOM_SPAN as int) == ms) by {
        vstd::arithmetic::div_mod::lemma_fundamental_div_mod_converse(
            v as int,
            RANDOM_SPAN as int,
            ms,
            random as int,
        );
    }
}

// ---------------------------------------------------------------- documents

/// The moment of a timestamp as one number: year, month, day, hour, minute and
/// second, each in its decimal places.
pub open spec fn stamp_value(stamp: (Seq<char>, Seq<char>)) -> nat {
    digits_value(stamp.0 + stamp.1)
}

proof fn digits_are_digits(s: Seq<char>)
    ensures
        all_digits(digits_of(s)),
    decreases s.len(),
{
    if s.len() > 0 {
        digits_are_digits(s.drop_last());
        let (d, r) = (digits_of(s), digits_of(s.drop_last()));
        assert forall|i: int| 0 <= i < d.len() implies is_digit(#[trigger] d[i]) by {
            if i < r.len() {
                assert(d[i] == r[i]);
            }
        }
    }
}

/// Where a document goes, written out.
proof fn path_written_out(root: Seq<char>, run: RunV)
    requires
        document_path(root, run) is Ok,
    ensures
        ({
            let (date, time) = stamp_digits(run.started_at)->Some_0;
            &&& document_path(root, run)->Ok_0 == path_join(root, month_text(date)) + "/"@
                + document_name(date, time, run)
            &&& date.len() == 8 && time.len() == 6
            &&& all_digits(date) && all_digits(time)
        }),
{
    let at = find(run.started_at, 'T');
    digits_are_digits(run.started_at.take(at));
    digits_are_digits(until(run.started_at.skip(at + 1), |c: char| ends_time(c)));
    let (date, time) = stamp_digits(run.started_at)->Some_0;
    let dir = path_join(root, month_text(date));
    let name = document_name(date, time, run);
    assert(is_digit(date[0]) && is_digit(date[5]));
    assert(month_text(date).last() == date[5]);
    assert(dir.last() == date[5]);
    assert(name[0] == date[0]);
}

/// Lexical order is chronological order: of two runs under one root, the document of
/// the one that started earlier sorts first, whatever else their names hold.
pub proof fn documents_sort_by_time(root: Seq<char>, a: RunV, b: RunV)
    requires
        document_path(root, a) is Ok,
        document_path(root, b) is Ok,
        stamp_value(stamp_digits(a.started_at)->Some_0) < stamp_value(
            stamp_digits(b.started_at)->Some_0,
        ),
    ensures
        text_lt(document_path(root, a)->Ok_0, document_path(root, b)->Ok_0),
{
    path_written_out(root, a);
    path_written_out(root, b);
    let (da, ta) = stamp_digits(a.started_at)->Some_0;
    let (db, tb) = stamp_digits(b.started_at)->Some_0;
    let (ma, mb) = (month_text(da), month_text(db));
    let (na, nb) = (document_name(da, ta, a), document_name(db, tb, b));
    reveal_strlit("-");
    reveal_strlit("T");
    reveal_strlit("/");
    let none = Seq::<char>::empty();
    assert(all_digits(da + ta)) by {
        assert forall|i: int| 0 <= i < (da + ta).len() implies is_digit(
            #[trigger] (da + ta)[i],
        ) by {
            if i < 8 {
                assert(is_digit(da[i]));
            } else {
                assert(is_digit(ta[i - 8]));
            }
        }
    }
    assert(all_digits(db + tb)) by {
        assert forall|i: int| 0 <= i < (db + tb).len() implies is_digit(
            #[trigger] (db + tb)[i],
        ) by {
            if i < 8 {
                assert(is_digit(db[i]));
            } else {
                assert(is_digit(tb[i - 8]));
            }
        }
    }
    digits_order(da + ta, db + tb);
    let at = first_difference(da + ta, db + tb);
    // The first character in which the stamps differ decides, in the month's
    // directory where it lies there and in the name otherwise.
    let lead = path_join(root, none);
    let base = if root.len() == 0 || root.last() == '/' {
        root
    } else {
        root + "/"@
    };
    assert(is_digit(da[0]) && is_digit(db[0]));
    assert(path_join(root, ma) =~= base + ma);
    assert(path_join(root, mb) =~= base + mb);
    if ma != mb {
        months_order(da, ta, db, tb, at);
        order_within(base, ma, mb, "/"@ + na, "/"@ + nb);
        assert(base + ma + ("/"@ + na) =~= path_join(root, ma) + "/"@ + na);
        assert(base + mb + ("/"@ + nb) =~= path_join(root, mb) + "/"@ + nb);
    } else {
        let (xa, xb) = (da + "T"@ + ta, db + "T"@ + tb);
        assert(xa[if at < 8 {
            at
        } else {
            at + 1
        }] == (da + ta)[at]);
        assert(xb[if at < 8 {
            at
        } else {
            at + 1
        }] == (db + tb)[at]);
        assert forall|i: int|
            0 <= i < (if at < 8 {
                at
            } else {
                at + 1
            }) implies xa[i] == xb[i] by {
            if i < 8 {
                assert((da + ta)[i] == (db + tb)[i]);
                assert(xa[i] == (da + ta)[i] && xb[i] == (db + tb)[i]);
            } else if i > 8 {
                assert((da + ta)[i - 1] == (db + tb)[i - 1]);
                assert(xa[i] == (da + ta)[i - 1] && xb[i] == (db + tb)[i - 1]);
            }
        }
        differs_first(
            xa,
            xb,
            if at < 8 {
                at
            } else {
                at + 1
            },
        );
        let sa = na.skip(xa.len() as int);
        let sb = nb.skip(xb.len() as int);
        assert(na =~= xa + sa);
        assert(nb =~= xb + sb);
        let p = base + ma + "/"@;
        order_within(p, xa, xb, sa, sb);
        assert(p + xa + sa =~= path_join(root, ma) + "/"@ + na);
        assert(p + xb + sb =~= path_join(root, mb) + "/"@ + nb);
    }
}

/// Where two ordered texts of one length first differ.
proof fn first_difference(x: Seq<char>, y: Seq<char>) -> (at: int)
    requires
        text_lt(x, y),
        x.len() == y.len(),
    ensures
        0 <= at < x.len(),
        (x[at] as int) < y[at] as int,
        forall|i: int| 0 <= i < at ==> x[i] == y[i],
    decreases x.len(),
{
    if x[0] == y[0] {
        let r = first_difference(x.drop_first(), y.drop_first());
        assert forall|i: int| 0 <= i < r + 1 implies x[i] == y[i] by {
            if i > 0 {
                assert(x.drop_first()[i - 1] == y.drop_first()[i - 1]);
            }
        }
        assert(x.drop_first()[r] == x[r + 1] && y.drop_first()[r] == y[r + 1]);
        r + 1
    } else {
        0
    }
}

proof fn differs_first(x: Seq<char>, y: Seq<char>, at: int)
    requires
        x.len() == y.len(),
        0 <= at < x.len(),
        (x[at] as int) < y[at] as int,
        forall|i: int| 0 <= i < at ==> x[i] == y[i],
    ensures
        text_lt(x, y),
    decreases x.len(),
{
    if at > 0 {
        assert(x[0] == y[0]);
        let (a, b) = (x.drop_first(), y.drop_first());
        assert forall|i: int| 0 <= i < at - 1 implies a[i] == b[i] by {
            assert(x[i + 1] == y[i + 1]);
        }
        differs_first(a, b, at - 1);
    }
}

proof fn months_order(da: Seq<char>, ta: Seq<char>, db: Seq<char>, tb: Seq<char>, at: int)
    requires
        da.len() == 8,
        db.len() == 8,
        ta.len() == 6,
        tb.len() == 6,
        month_text(da) != month_text(db),
        0 <= at < 14,
        ((da + ta)[at] as int) < (db + tb)[at] as int,
        forall|i: int| 0 <= i < at ==> (da + ta)[i] == (db + tb)[i],
    ensures
        text_lt(month_text(da), month_text(db)),
        month_text(da).len() == month_text(db).len(),
{
    reveal_strlit("-");
    let (ma, mb) = (month_text(da), month_text(db));
    assert forall|i: int| 0 <= i < 8 implies (da + ta)[i] == da[i] && (db + tb)[i] == db[i] by {}
    if at >= 6 {
        assert forall|i: int| 0 <= i < 7 implies ma[i] == mb[i] by {
            if i < 4 {
                assert((da + ta)[i] == (db + tb)[i]);
            } else if i > 4 {
                assert((da + ta)[i - 1] == (db + tb)[i - 1]);
            }
        }
        assert(ma =~= mb);
    }
    let k = if at < 4 {
        at
    } else {
        at + 1
    };
    assert forall|i: int| 0 <= i < k implies ma[i] == mb[i] by {
        if i < 4 {
            assert((da + ta)[i] == (db + tb)[i]);
        } else if i > 4 {
            assert((da + ta)[i - 1] == (db + tb)[i - 1]);
        }
    }
    differs_first(ma, mb, k);
}

/// The path that a run gets holds no colon where its root and its id hold none.
pub proof fn paths_hold_no_colon(root: Seq<char>, run: RunV)
    requires
        document_path(root, run) is Ok,
        !root.contains(':'),
        !run.run_id.contains(':'),
    ensures
        !document_path(root, run)->Ok_0.contains(':'),
{
    path_written_out(root, run);
    let (date, time) = stamp_digits(run.started_at)->Some_0;
    reveal_strlit("-");
    reveal_strlit("T");
    reveal_strlit("Z");
    reveal_strlit("/");
    reveal_strlit(".json");
    reveal_strlit("unknown");
    let name = document_name(date, time, run);
    no_colon_in_slug(run.machine_hash);
    no_colon_in_slug(run.runner);
    assert(!date.contains(':')) by {
        if date.contains(':') {
            let i = choose|i: int| 0 <= i < date.len() && date[i] == ':';
            assert(is_digit(date[i]));
        }
    }
    assert(!time.contains(':')) by {
        if time.contains(':') {
            let i = choose|i: int| 0 <= i < time.len() && time[i] == ':';
            assert(is_digit(time[i]));
        }
    }
    let id = short_id(run.run_id);
    assert(!id.contains(':')) by {
        if id.contains(':') {
            let i = choose|i: int| 0 <= i < id.len() && id[i] == ':';
            assert(run.run_id[i] == ':');
        }
    }
    let month = month_text(date);
    assert(!month.contains(':')) by {
        if month.contains(':') {
            let i = choose|i: int| 0 <= i < month.len() && month[i] == ':';
            assert(i < 4 ==> month[i] == date[i]);
            assert(i > 4 ==> month[i] == date[i - 1]);
        }
    }
    none_in_both(date, "T"@);
    none_in_both(date + "T"@, time);
    none_in_both(date + "T"@ + time, "Z"@);
    let a = stamp_text(date, time);
    none_in_both(a, "-"@);
    none_in_both(a + "-"@, slug_text(run.machine_hash));
    let b = a + "-"@ + slug_text(run.machine_hash);
    none_in_both(b, "-"@);
    none_in_both(b + "-"@, slug_text(run.runner));
    let c = b + "-"@ + slug_text(run.runner);
    none_in_both(c, "-"@);
    none_in_both(c + "-"@, id);
    none_in_both(c + "-"@ + id, ".json"@);
    none_in_both(root, "/"@);
    none_in_both(root, month);
    none_in_both(root + "/"@, month);
    let dir = path_join(root, month);
    none_in_both(dir, "/"@);
    none_in_both(dir + "/"@, name);
}

proof fn none_in_both(a: Seq<char>, b: Seq<char>)
    requires
        !a.contains(':'),
        !b.contains(':'),
    ensures
        !(a + b).contains(':'),
{
    if (a + b).contains(':') {
        let i = choose|i: int| 0 <= i < (a + b).len() && (a + b)[i] == ':';
        if i < a.len() {
            assert(a[i] == ':');
        } else {
            assert(b[i - a.len()] == ':');
        }
    }
}

proof fn no_colon_in_slug(raw: Seq<char>)
    ensures
        !slug_text(raw).contains(':'),
{
    reveal_strlit("unknown");
    let s = slug_text(raw);
    if s.contains(':') {
        let i = choose|i: int| 0 <= i < s.len() && s[i] == ':';
        if raw.len() > 0 {
            assert(is_alphanumeric(raw[i]) || s[i] == '-');
        }
    }
}

// ---------------------------------------------------------------- timestamps

proof fn two_digits(n: nat)
    requires
        n < 100,
    ensures
        padded(dec(n), 2).len() == 2,
        all_digits(padded(dec(n), 2)),
        digits_value(padded(dec(n), 2)) == n,
{
    reveal_with_fuel(dec, 3);
    reveal_with_fuel(digits_value, 4);
    decimal_reads_back(n);
    let p = padded(dec(n), 2);
    if n < 10 {
        assert(p =~= seq!['0', digit(n)]);
        assert(p.drop_last() =~= seq!['0']);
        assert(p.drop_last().drop_last() =~= Seq::empty());
    } else {
        assert(p =~= dec(n));
    }
}

proof fn four_digits(n: nat)
    requires
        1000 <= n < 10_000,
    ensures
        padded(dec(n), 4).len() == 4,
        all_digits(padded(dec(n), 4)),
        digits_value(padded(dec(n), 4)) == n,
{
    reveal_with_fuel(dec, 5);
    decimal_reads_back(n);
}

proof fn digits_of_digits(s: Seq<char>)
    requires
        all_digits(s),
    ensures
        digits_of(s) == s,
    decreases s.len(),
{
    if s.len() > 0 {
        let t = s.drop_last();
        assert(is_digit(s[s.len() - 1]));
        assert forall|i: int| 0 <= i < t.len() implies is_digit(#[trigger] t[i]) by {
            assert(is_digit(s[i]));
        }
        digits_of_digits(t);
        assert(s =~= t.push(s.last()));
    }
}

proof fn digits_of_both(a: Seq<char>, b: Seq<char>)
    ensures
        digits_of(a + b) == digits_of(a) + digits_of(b),
    decreases b.len(),
{
    if b.len() == 0 {
        assert(a + b =~= a);
        assert(digits_of(a) + digits_of(b) =~= digits_of(a));
    } else {
        digits_of_both(a, b.drop_last());
        assert((a + b).drop_last() =~= a + b.drop_last());
        assert((a + b).last() == b.last());
        assert(digits_of(a + b) =~= digits_of(a) + digits_of(b));
    }
}

proof fn value_of_both(a: Seq<char>, b: Seq<char>)
    requires
        b.len() == 2,
    ensures
        digits_value(a + b) == 100 * digits_value(a) + digits_value(b),
{
    reveal_with_fuel(digits_value, 3);
    let s = a + b;
    assert(s.drop_last().drop_last() =~= a);
    assert(s.last() == b.last() && s.drop_last().last() == b.drop_last().last());
    assert(b.drop_last().drop_last() =~= Seq::empty());
}

/// What a year, month, day, hour, minute and second make as one number.
pub open spec fn moment(y: nat, mo: nat, d: nat, h: nat, m: nat, s: nat) -> nat {
    ((((y * 100 + mo) * 100 + d) * 100 + h) * 100 + m) * 100 + s
}

#[verifier::rlimit(40)]
proof fn stamp_of_iso(y: nat, mo: nat, d: nat, h: nat, m: nat, s: nat)
    requires
        1000 <= y < 10_000,
        mo < 100,
        d < 100,
        h < 100,
        m < 100,
        s < 100,
    ensures
        stamp_digits(iso(y, mo, d, h, m, s)) is Some,
        stamp_value(stamp_digits(iso(y, mo, d, h, m, s))->Some_0) == moment(y, mo, d, h, m, s),
{
    four_digits(y);
    two_digits(mo);
    two_digits(d);
    two_digits(h);
    two_digits(m);
    two_digits(s);
    let (py, pmo, pd) = (padded(dec(y), 4), padded(dec(mo), 2), padded(dec(d), 2));
    let (ph, pm, ps) = (padded(dec(h), 2), padded(dec(m), 2), padded(dec(s), 2));
    stamp_of_parts(py, pmo, pd, ph, pm, ps);
    let date = py + pmo + pd;
    let a = date + ph;
    let b = a + pm;
    value_of_both(py, pmo);
    value_of_both(py + pmo, pd);
    value_of_both(date, ph);
    value_of_both(a, pm);
    value_of_both(b, ps);
    assert(date + (ph + pm + ps) =~= b + ps);
}

proof fn stamp_of_parts(
    py: Seq<char>,
    pmo: Seq<char>,
    pd: Seq<char>,
    ph: Seq<char>,
    pm: Seq<char>,
    ps: Seq<char>,
)
    requires
        py.len() == 4 && pmo.len() == 2 && pd.len() == 2,
        ph.len() == 2 && pm.len() == 2 && ps.len() == 2,
        all_digits(py) && all_digits(pmo) && all_digits(pd),
        all_digits(ph) && all_digits(pm) && all_digits(ps),
    ensures
        stamp_digits(
            py + "-"@ + pmo + "-"@ + pd + "T"@ + ph + ":"@ + pm + ":"@ + ps + "Z"@,
        ) == Some((py + pmo + pd, ph + pm + ps)),
{
    reveal_strlit("-");
    reveal_strlit("T");
    reveal_strlit(":");
    reveal_strlit("Z");
    let t = py + "-"@ + pmo + "-"@ + pd + "T"@ + ph + ":"@ + pm + ":"@ + ps + "Z"@;
    let date = py + "-"@ + pmo + "-"@ + pd;
    let time = ph + ":"@ + pm + ":"@ + ps;
    assert(t =~= date + "T"@ + time + "Z"@);
    assert(date.len() == 10 && time.len() == 8);
    assert forall|i: int| 0 <= i < 10 implies date[i] != 'T' by {
        if i < 4 {
            assert(is_digit(py[i]) && date[i] == py[i]);
        } else if i == 4 || i == 7 {
            assert(date[i] == '-');
        } else if i < 7 {
            assert(is_digit(pmo[i - 5]) && date[i] == pmo[i - 5]);
        } else {
            assert(is_digit(pd[i - 8]) && date[i] == pd[i - 8]);
        }
    }
    assert forall|i: int| 0 <= i < 8 implies !ends_time(time[i]) by {
        if i < 2 {
            assert(is_digit(ph[i]) && time[i] == ph[i]);
        } else if i == 2 || i == 5 {
            assert(time[i] == ':');
        } else if i < 5 {
            assert(is_digit(pm[i - 3]) && time[i] == pm[i - 3]);
        } else {
            assert(is_digit(ps[i - 6]) && time[i] == ps[i - 6]);
        }
    }
    assert forall|i: int| 0 <= i < 10 implies t[i] != 'T' by {
        assert(t[i] == date[i]);
    }
    assert(t[10] == 'T');
    find_is(t, 'T', 10);
    assert(t.take(10) =~= date);
    let rest = t.skip(11);
    assert(rest =~= time + "Z"@);
    let stop = |c: char| ends_time(c);
    assert forall|i: int| 0 <= i < 8 implies !stop(#[trigger] rest[i]) by {
        assert(rest[i] == time[i]);
    }
    assert(stop(rest[8]));
    until_is_take(rest, stop, 8);
    assert(rest.take(8) =~= time);
    reveal_with_fuel(digits_of, 2);
    assert(digits_of("-"@) =~= Seq::empty());
    assert(digits_of(":"@) =~= Seq::empty());
    digits_of_digits(py);
    digits_of_digits(pmo);
    digits_of_digits(pd);
    digits_of_digits(ph);
    digits_of_digits(pm);
    digits_of_digits(ps);
    digits_of_both(py, "-"@);
    digits_of_both(py + "-"@, pmo);
    digits_of_both(py + "-"@ + pmo, "-"@);
    digits_of_both(py + "-"@ + pmo + "-"@, pd);
    digits_of_both(ph, ":"@);
    digits_of_both(ph + ":"@, pm);
    digits_of_both(ph + ":"@ + pm, ":"@);
    digits_of_both(ph + ":"@ + pm + ":"@, ps);
    assert(digits_of(date) =~= py + pmo + pd);
    assert(digits_of(time) =~= ph + pm + ps);
}

/// A timestamp before the year 10000 has a year of four digits, and its stamp is its
/// moment.
proof fn timestamp_stamp(t: Seq<char>, a: nat, y: nat, mo: nat, d: nat)
    requires
        timestamp_on(t, a, y, mo, d),
        a < 253_402_300_800,
    ensures
        1970 <= y < 10_000,
        1 <= mo <= 12,
        1 <= d <= 31,
        stamp_digits(t) is Some,
        stamp_value(stamp_digits(t)->Some_0) == moment(
            y,
            mo,
            d,
            (a % 86_400) / 3600,
            (a % 3600) / 60,
            a % 60,
        ),
{
    assert(day_number(10_000, 1, 1) == 2_932_897) by {
        reveal_with_fuel(days_before_month, 2);
    }
    later_days_have_later_dates(y as int, mo as int, d as int, 10_000, 1, 1);
    last_of_1969();
    later_days_have_later_dates(1969, 12, 31, y as int, mo as int, d as int);
    stamp_of_iso(y, mo, d, (a % 86_400) / 3600, (a % 3600) / 60, a % 60);
}

/// A second of a day as a number of hours, minutes and seconds.
spec fn clock(a: nat) -> nat {
    (a / 3600 * 100 + (a % 3600) / 60) * 100 + a % 60
}

/// A number below 3600 in base 60, written in base 100.
spec fn sixties(x: nat) -> nat {
    x / 60 * 100 + x % 60
}

proof fn sixties_order(x: nat, y: nat)
    requires
        x < y,
    ensures
        sixties(x) < sixties(y),
{
    assert(x == 60 * (x / 60) + x % 60);
    assert(y == 60 * (y / 60) + y % 60);
    assert(x / 60 <= y / 60);
}

proof fn clock_in_sixties(a: nat)
    ensures
        clock(a) == sixties(a / 60) * 100 + a % 60,
{
    vstd::arithmetic::div_mod::lemma_div_denominator(a as int, 60, 60);
    let (q, r) = (a / 3600, a % 3600);
    assert(a == 3600 * q + r);
    assert(a / 60 == 60 * q + r / 60);
    assert((a / 60) % 60 == r / 60);
}

proof fn clock_order(a: nat, b: nat)
    requires
        a < b < 86_400,
    ensures
        clock(a) < clock(b),
{
    clock_in_sixties(a);
    clock_in_sixties(b);
    if a / 60 < b / 60 {
        sixties_order(a / 60, b / 60);
    }
}

proof fn clock_bound(a: nat)
    requires
        a < 86_400,
    ensures
        clock(a) < 1_000_000,
{
    assert(a / 3600 < 24);
    assert((a % 3600) / 60 < 60);
}

proof fn moment_is_date_and_clock(y: nat, mo: nat, d: nat, a: nat)
    ensures
        moment(y, mo, d, (a % 86_400) / 3600, (a % 3600) / 60, a % 60) == 1_000_000 * (10_000 * y
            + 100 * mo + d) + clock(a % 86_400),
{
    vstd::arithmetic::div_mod::lemma_mod_mod(a as int, 3600, 24);
    vstd::arithmetic::div_mod::lemma_mod_mod(a as int, 60, 1440);
}

/// Up to the year 9999, a later moment has a later stamp, so that documents named by
/// the clock sort by it.
pub proof fn later_moments_have_later_stamps(t: Seq<char>, a: nat, u: Seq<char>, b: nat)
    requires
        is_timestamp(t, a),
        is_timestamp(u, b),
        a < b < 253_402_300_800,
    ensures
        stamp_digits(t) is Some,
        stamp_digits(u) is Some,
        stamp_value(stamp_digits(t)->Some_0) < stamp_value(stamp_digits(u)->Some_0),
{
    let (y, mo, d) = choose|y: nat, mo: nat, d: nat| #[trigger] timestamp_on(t, a, y, mo, d);
    let (y2, mo2, d2) = choose|y: nat, mo: nat, d: nat| #[trigger] timestamp_on(u, b, y, mo, d);
    timestamp_stamp(t, a, y, mo, d);
    timestamp_stamp(u, b, y2, mo2, d2);
    let (yi, mi, di) = (y as int, mo as int, d as int);
    let (yj, mj, dj) = (y2 as int, mo2 as int, d2 as int);
    let (p, q) = (a % 86_400, b % 86_400);
    moment_is_date_and_clock(y, mo, d, a);
    moment_is_date_and_clock(y2, mo2, d2, b);
    if a / 86_400 < b / 86_400 {
        later_days_have_later_dates(yi, mi, di, yj, mj, dj);
        clock_bound(p);
        clock_bound(q);
    } else {
        assert(a / 86_400 == b / 86_400);
        one_day_one_date(yi, mi, di, yj, mj, dj);
        clock_order(p, q);
        clock_bound(q);
    }
}

/// A moment in six fields.
struct Fields {
    y: nat,
    mo: nat,
    d: nat,
    h: nat,
    m: nat,
    s: nat,
}

/// The fields have the width that they are written in.
spec fn fit(f: Fields) -> bool {
    1000 <= f.y < 10_000 && f.mo < 100 && f.d < 100 && f.h < 100 && f.m < 100 && f.s < 100
}

spec fn written(f: Fields) -> Seq<char> {
    iso(f.y, f.mo, f.d, f.h, f.m, f.s)
}

/// The first field that differs decides.
spec fn earlier(f: Fields, g: Fields) -> bool {
    f.y < g.y || (f.y == g.y && (f.mo < g.mo || (f.mo == g.mo && (f.d < g.d || (f.d == g.d && (f.h
        < g.h || (f.h == g.h && (f.m < g.m || (f.m == g.m && f.s < g.s)))))))))
}

proof fn numbers_order(n: nat, m: nat)
    requires
        n < m < 100,
    ensures
        text_lt(padded(dec(n), 2), padded(dec(m), 2)),
        padded(dec(n), 2).len() == padded(dec(m), 2).len(),
{
    two_digits(n);
    two_digits(m);
    digits_order(padded(dec(n), 2), padded(dec(m), 2));
}

/// The date of the ISO form.
spec fn date_text(f: Fields) -> Seq<char> {
    padded(dec(f.y), 4) + "-"@ + padded(dec(f.mo), 2) + "-"@ + padded(dec(f.d), 2)
}

/// What the ISO form says behind the date.
spec fn clock_text(f: Fields) -> Seq<char> {
    "T"@ + padded(dec(f.h), 2) + ":"@ + padded(dec(f.m), 2) + ":"@ + padded(dec(f.s), 2) + "Z"@
}

proof fn regrouped(a: Seq<char>, b: Seq<char>, c: Seq<char>)
    ensures
        (a + b) + c == a + (b + c),
{
    assert((a + b) + c =~= a + (b + c));
}

proof fn date_and_clock(f: Fields)
    ensures
        written(f) == date_text(f) + clock_text(f),
{
    let d = date_text(f);
    let (h, m, s) = (padded(dec(f.h), 2), padded(dec(f.m), 2), padded(dec(f.s), 2));
    regrouped(d, "T"@, h);
    regrouped(d, "T"@ + h, ":"@);
    regrouped(d, "T"@ + h + ":"@, m);
    regrouped(d, "T"@ + h + ":"@ + m, ":"@);
    regrouped(d, "T"@ + h + ":"@ + m + ":"@, s);
    regrouped(d, "T"@ + h + ":"@ + m + ":"@ + s, "Z"@);
}

proof fn earlier_years_are_written_before(f: Fields, g: Fields)
    requires
        fit(f),
        fit(g),
        f.y < g.y,
    ensures
        text_lt(date_text(f), date_text(g)),
{
    let (fy, gy) = (padded(dec(f.y), 4), padded(dec(g.y), 4));
    four_digits(f.y);
    four_digits(g.y);
    digits_order(fy, gy);
    let none = Seq::<char>::empty();
    let s = "-"@ + padded(dec(f.mo), 2) + "-"@ + padded(dec(f.d), 2);
    let u = "-"@ + padded(dec(g.mo), 2) + "-"@ + padded(dec(g.d), 2);
    order_within(none, fy, gy, s, u);
    assert(date_text(f) =~= none + fy + s);
    assert(date_text(g) =~= none + gy + u);
}

proof fn earlier_months_are_written_before(f: Fields, g: Fields)
    requires
        fit(f),
        fit(g),
        f.y == g.y,
        f.mo < g.mo,
    ensures
        text_lt(date_text(f), date_text(g)),
{
    let (fo, go) = (padded(dec(f.mo), 2), padded(dec(g.mo), 2));
    numbers_order(f.mo, g.mo);
    let p = padded(dec(f.y), 4) + "-"@;
    let s = "-"@ + padded(dec(f.d), 2);
    let u = "-"@ + padded(dec(g.d), 2);
    order_within(p, fo, go, s, u);
    assert(date_text(f) =~= p + fo + s);
    assert(date_text(g) =~= p + go + u);
}

proof fn earlier_days_are_written_before(f: Fields, g: Fields)
    requires
        fit(f),
        fit(g),
        f.y == g.y,
        f.mo == g.mo,
        f.d < g.d,
    ensures
        text_lt(date_text(f), date_text(g)),
{
    let (fd, gd) = (padded(dec(f.d), 2), padded(dec(g.d), 2));
    numbers_order(f.d, g.d);
    let p = padded(dec(f.y), 4) + "-"@ + padded(dec(f.mo), 2) + "-"@;
    let none = Seq::<char>::empty();
    order_within(p, fd, gd, none, none);
    assert(date_text(f) =~= p + fd + none);
    assert(date_text(g) =~= p + gd + none);
}

/// Dates in the ISO form order as their fields do.
proof fn earlier_dates_are_written_before(f: Fields, g: Fields)
    requires
        fit(f),
        fit(g),
        earlier(f, g),
        (f.y, f.mo, f.d) != (g.y, g.mo, g.d),
    ensures
        text_lt(written(f), written(g)),
{
    if f.y < g.y {
        earlier_years_are_written_before(f, g);
    } else if f.mo < g.mo {
        earlier_months_are_written_before(f, g);
    } else {
        earlier_days_are_written_before(f, g);
    }
    four_digits(f.y);
    four_digits(g.y);
    two_digits(f.mo);
    two_digits(g.mo);
    two_digits(f.d);
    two_digits(g.d);
    date_and_clock(f);
    date_and_clock(g);
    let none = Seq::<char>::empty();
    order_within(none, date_text(f), date_text(g), clock_text(f), clock_text(g));
    assert(none + date_text(f) =~= date_text(f));
    assert(none + date_text(g) =~= date_text(g));
}

/// On one day, moments in the ISO form order as their fields do.
proof fn earlier_clocks_are_written_before(f: Fields, g: Fields)
    requires
        fit(f),
        fit(g),
        earlier(f, g),
        (f.y, f.mo, f.d) == (g.y, g.mo, g.d),
    ensures
        text_lt(written(f), written(g)),
{
    let date = padded(dec(f.y), 4) + "-"@ + padded(dec(f.mo), 2) + "-"@ + padded(dec(f.d), 2) + "T"@;
    let (fh, fm, fs) = (padded(dec(f.h), 2), padded(dec(f.m), 2), padded(dec(f.s), 2));
    let (gh, gm, gs) = (padded(dec(g.h), 2), padded(dec(g.m), 2), padded(dec(g.s), 2));
    if f.h < g.h {
        numbers_order(f.h, g.h);
        let s = ":"@ + fm + ":"@ + fs + "Z"@;
        let u = ":"@ + gm + ":"@ + gs + "Z"@;
        order_within(date, fh, gh, s, u);
        assert(written(f) =~= date + fh + s);
        assert(written(g) =~= date + gh + u);
    } else if f.m < g.m {
        numbers_order(f.m, g.m);
        let p = date + fh + ":"@;
        let s = ":"@ + fs + "Z"@;
        let u = ":"@ + gs + "Z"@;
        order_within(p, fm, gm, s, u);
        assert(written(f) =~= p + fm + s);
        assert(written(g) =~= p + gm + u);
    } else {
        numbers_order(f.s, g.s);
        let p = date + fh + ":"@ + fm + ":"@;
        order_within(p, fs, gs, "Z"@, "Z"@);
        assert(written(f) =~= p + fs + "Z"@);
        assert(written(g) =~= p + gs + "Z"@);
    }
}

/// A second of a day in hours, minutes and seconds orders as the second does.
proof fn later_seconds_have_later_clocks(p: nat, q: nat)
    requires
        p < q,
    ensures
        p / 3600 < q / 3600 || (p / 3600 == q / 3600 && ((p % 3600) / 60 < (q % 3600) / 60 || ((p
            % 3600) / 60 == (q % 3600) / 60 && p % 60 < q % 60))),
{
    let (a, b) = (p % 3600, q % 3600);
    assert(p == 3600 * (p / 3600) + a && q == 3600 * (q / 3600) + b);
    assert(p / 3600 <= q / 3600);
    if p / 3600 == q / 3600 {
        assert(a < b);
        assert(a == 60 * (a / 60) + a % 60 && b == 60 * (b / 60) + b % 60);
        vstd::arithmetic::div_mod::lemma_mod_mod(p as int, 60, 60);
        vstd::arithmetic::div_mod::lemma_mod_mod(q as int, 60, 60);
    }
}

/// The fields of a moment before the year 10000.
proof fn fields_of(t: Seq<char>, a: nat, y: nat, mo: nat, d: nat) -> (f: Fields)
    requires
        timestamp_on(t, a, y, mo, d),
        a < 253_402_300_800,
    ensures
        f == (Fields { y, mo, d, h: (a % 86_400) / 3600, m: (a % 3600) / 60, s: a % 60 }),
        fit(f),
        t == written(f),
        t.len() == 20,
{
    reveal_strlit("-");
    reveal_strlit("T");
    reveal_strlit(":");
    reveal_strlit("Z");
    timestamp_stamp(t, a, y, mo, d);
    let f = Fields { y, mo, d, h: (a % 86_400) / 3600, m: (a % 3600) / 60, s: a % 60 };
    four_digits(f.y);
    two_digits(f.mo);
    two_digits(f.d);
    two_digits(f.h);
    two_digits(f.m);
    two_digits(f.s);
    f
}

/// Up to the year 9999, a timestamp has twenty characters, and a later moment has a later
/// timestamp: the texts compare as the clock does.
pub proof fn later_moments_have_later_timestamps(t: Seq<char>, a: nat, u: Seq<char>, b: nat)
    requires
        is_timestamp(t, a),
        is_timestamp(u, b),
        a < b < 253_402_300_800,
    ensures
        t.len() == 20,
        u.len() == 20,
        text_lt(t, u),
{
    let (y, mo, d) = choose|y: nat, mo: nat, d: nat| #[trigger] timestamp_on(t, a, y, mo, d);
    let (y2, mo2, d2) = choose|y: nat, mo: nat, d: nat| #[trigger] timestamp_on(u, b, y, mo, d);
    let f = fields_of(t, a, y, mo, d);
    let g = fields_of(u, b, y2, mo2, d2);
    if a / 86_400 < b / 86_400 {
        later_days_have_later_dates(
            y as int,
            mo as int,
            d as int,
            y2 as int,
            mo2 as int,
            d2 as int,
        );
        earlier_dates_are_written_before(f, g);
    } else {
        assert(a / 86_400 == b / 86_400);
        one_day_one_date(
            y as int,
            mo as int,
            d as int,
            y2 as int,
            mo2 as int,
            d2 as int,
        );
        let (p, q) = (a % 86_400, b % 86_400);
        vstd::arithmetic::div_mod::lemma_mod_mod(a as int, 3600, 24);
        vstd::arithmetic::div_mod::lemma_mod_mod(b as int, 3600, 24);
        vstd::arithmetic::div_mod::lemma_mod_mod(a as int, 60, 1440);
        vstd::arithmetic::div_mod::lemma_mod_mod(b as int, 60, 1440);
        later_seconds_have_later_clocks(p, q);
        earlier_clocks_are_written_before(f, g);
    }
}

proof fn last_of_1969()
    ensures
        day_number(1969, 12, 31) == -1,
{
    years_follow_each_other(1969);
    reveal_with_fuel(days_before_month, 14);
}

/// A document is named after its run: it stands in the month that the run started in,
/// under the moment, the machine, the runner and the head of the run's id, in this order.
pub proof fn documents_are_named_after_their_run(root: Seq<char>, run: RunV)
    requires
        document_path(root, run) is Ok,
    ensures
        ({
            let p = document_path(root, run)->Ok_0;
            let (date, time) = stamp_digits(run.started_at)->Some_0;
            let id = if run.run_id.len() <= 8 {
                run.run_id
            } else {
                run.run_id.take(8)
            };
            let name = date + "T"@ + time + "Z-"@ + slug_text(run.machine_hash) + "-"@ + slug_text(
                run.runner,
            ) + "-"@ + id + ".json"@;
            &&& name.is_suffix_of(p)
            &&& contains_text(p, date.subrange(0, 4) + "-"@ + date.subrange(4, 6) + "/"@ + name)
            &&& slug_text(run.machine_hash).len() == run.machine_hash.len() || run.machine_hash.len() == 0
        }),
{
    let p = document_path(root, run)->Ok_0;
    let (date, time) = stamp_digits(run.started_at)->Some_0;
    reveal_strlit("Z");
    reveal_strlit("-");
    reveal_strlit("Z-");
    reveal_strlit("/");
    assert("Z-"@ =~= "Z"@ + "-"@);
    let id = short_id(run.run_id);
    let name = date + "T"@ + time + "Z-"@ + slug_text(run.machine_hash) + "-"@ + slug_text(run.runner)
        + "-"@ + id + ".json"@;
    assert(date + "T"@ + time + "Z-"@ =~= stamp_text(date, time) + "-"@);
    assert(name == document_name(date, time, run));
    path_written_out(root, run);
    assert(is_digit(date[0]));
    let month = month_text(date);
    let dir = path_join(root, month);
    assert(month[0] == date[0]);
    assert(p.subrange(p.len() - name.len(), p.len() as int) =~= name);
    let tail = date.subrange(0, 4) + "-"@ + date.subrange(4, 6) + "/"@ + name;
    let front = dir.take(dir.len() - month.len());
    assert(dir =~= front + month);
    let none = Seq::<char>::empty();
    assert(p =~= front + tail + none);
    stands_between(front, tail, none);
}

/// A part of a name keeps its letters and digits where they stand, and has a hyphen for
/// everything else.
pub proof fn names_keep_their_letters(raw: Seq<char>, i: int)
    requires
        0 <= i < raw.len(),
    ensures
        slug_text(raw).len() == raw.len(),
        is_alphanumeric(raw[i]) ==> slug_text(raw)[i] == raw[i],
        !is_alphanumeric(raw[i]) ==> slug_text(raw)[i] == '-',
{
}

/// What stands behind the seconds of a timestamp, a fraction or an offset, does not change
/// what its document is named by.
pub proof fn fractions_and_offsets_do_not_count(
    date: Seq<char>,
    time: Seq<char>,
    rest: Seq<char>,
    other: Seq<char>,
)
    requires
        !date.contains('T'),
        forall|i: int| 0 <= i < time.len() ==> !ends_time(#[trigger] time[i]),
        rest.len() > 0 && (rest[0] == '.' || rest[0] == 'Z' || rest[0] == '+'),
        other.len() > 0 && (other[0] == '.' || other[0] == 'Z' || other[0] == '+'),
    ensures
        stamp_digits(date + seq!['T'] + time + rest) == stamp_digits(
            date + seq!['T'] + time + other,
        ),
{
    stamp_reads(date, time, rest);
    stamp_reads(date, time, other);
}

proof fn stamp_reads(date: Seq<char>, time: Seq<char>, rest: Seq<char>)
    requires
        !date.contains('T'),
        forall|i: int| 0 <= i < time.len() ==> !ends_time(#[trigger] time[i]),
        rest.len() > 0 && (rest[0] == '.' || rest[0] == 'Z' || rest[0] == '+'),
    ensures
        ({
            let s = date + seq!['T'] + time + rest;
            &&& find(s, 'T') == date.len()
            &&& find(s, 'T') < s.len()
            &&& s.take(date.len() as int) == date
            &&& until(s.skip(date.len() as int + 1), |c: char| ends_time(c)) == time
        }),
{
    let s = date + seq!['T'] + time + rest;
    let n = date.len() as int;
    assert(s[n] == 'T');
    assert forall|j: int| 0 <= j < n implies s[j] != 'T' by {
        assert(s[j] == date[j]);
        assert(date.contains(date[j]));
    }
    find_is(s, 'T', n);
    assert(s.take(n) =~= date);
    let t = s.skip(n + 1);
    assert(t =~= time + rest);
    let stop = |c: char| ends_time(c);
    assert forall|j: int| 0 <= j < time.len() implies !stop(#[trigger] t[j]) by {
        assert(t[j] == time[j]);
    }
    assert(t[time.len() as int] == rest[0]);
    until_is_take(t, stop, time.len() as int);
    assert(t.take(time.len() as int) =~= time);
}

} // verus!
