//! Redeeming promotional codes: which of the submitted codes count at a
//! given instant, what they add, and the record of a redemption.

use vstd::prelude::*;
use vstd::string::*;
use crate::assoc::{entry_keys, keys, lemma_rank_bounds, position, rank};
use crate::codec::hex_text;
use crate::catalog::find_code;
use crate::models::{Code, Quiz, Timestamp, UserRecord, UserStateView};
use crate::scoring::{scorable, total_points};
use crate::text::{lemma_text_lt_order, str_eq, text_lt};

verus! {

/// The texts of a list of strings.
pub open spec fn texts(strings: Seq<String>) -> Seq<Seq<char>> {
    strings.map_values(|s: String| s@)
}

/// What a list of redeemed codes holds: each code's text and points.
pub open spec fn redeemed_view(entries: Seq<(String, u32)>) -> Seq<(Seq<char>, u32)> {
    entries.map_values(|e: (String, u32)| (e.0@, e.1))
}

/// Whether `now` lies in the code's window, both ends included.
pub open spec fn in_window(code: Code, now: Timestamp) -> bool {
    code.valid_from.le(now) && now.le(code.valid_to)
}

/// The redeemed codes after one more submitted text. A text that was
/// submitted before counts for nothing; so does one that names no code, or
/// a code outside its window. A code that counts is put in at its place in
/// the order of code texts.
pub open spec fn redeem_one(
    codes: Seq<Code>,
    matched: Seq<(Seq<char>, u32)>,
    before: Seq<Seq<char>>,
    submitted: Seq<char>,
    now: Timestamp,
) -> Seq<(Seq<char>, u32)> {
    if before.contains(submitted) {
        matched
    } else {
        match find_code(codes, submitted) {
            Some(code) => if in_window(code, now) {
                matched.insert(rank(keys(matched), code.code@), (code.code@, code.points))
            } else {
                matched
            },
            None => matched,
        }
    }
}

/// The codes that the submitted texts redeem at `now`, with their points,
/// in the order of the code texts.
pub open spec fn redeemed(codes: Seq<Code>, submitted: Seq<Seq<char>>, now: Timestamp) -> Seq<
    (Seq<char>, u32),
>
    decreases submitted.len(),
{
    if submitted.len() == 0 {
        Seq::empty()
    } else {
        redeem_one(
            codes,
            redeemed(codes, submitted.drop_last(), now),
            submitted.drop_last(),
            submitted.last(),
            now,
        )
    }
}

/// The points of the redeemed codes.
pub open spec fn code_points(matched: Seq<(Seq<char>, u32)>) -> int
    decreases matched.len(),
{
    if matched.len() == 0 {
        0
    } else {
        code_points(matched.drop_last()) + matched.last().1
    }
}

/// No text comes strictly before an earlier one.
pub open spec fn nondecreasing(ks: Seq<Seq<char>>) -> bool {
    forall|i: int, j: int| 0 <= i < j < ks.len() ==> !text_lt(#[trigger] ks[j], #[trigger] ks[i])
}

/// The texts joined by single spaces.
pub open spec fn joined(names: Seq<Seq<char>>) -> Seq<char>
    decreases names.len(),
{
    if names.len() == 0 {
        Seq::empty()
    } else if names.len() == 1 {
        names[0]
    } else {
        joined(names.drop_last()) + seq![' '] + names.last()
    }
}

/// The points of a redemption: those of the session and those of the codes
/// it redeems.
pub open spec fn registration_points(
    quizzes: Seq<Quiz>,
    codes: Seq<Code>,
    submitted: Seq<Seq<char>>,
    state: UserStateView,
    now: Timestamp,
) -> int {
    total_points(quizzes, state) + code_points(redeemed(codes, submitted, now))
}

/// A redemption can be made if the session can be scored and the points
/// fit in a `u32`.
pub open spec fn registrable(
    quizzes: Seq<Quiz>,
    codes: Seq<Code>,
    submitted: Seq<Seq<char>>,
    state: UserStateView,
    now: Timestamp,
) -> bool {
    scorable(quizzes, state) && registration_points(quizzes, codes, submitted, state, now)
        <= u32::MAX
}

/// The record says who redeemed, how many points, with which codes, and
/// when.
pub open spec fn is_record(
    record: UserRecord,
    id: Seq<u8>,
    email: Seq<char>,
    points: u32,
    code_names: Seq<Seq<char>>,
    consent: bool,
    now: Timestamp,
) -> bool {
    &&& record.id@ == hex_text(id)
    &&& record.email@ == email
    &&& record.points == points
    &&& record.codes@ == joined(code_names)
    &&& record.consent == consent
    &&& record.time == now
}

/// Putting an entry in adds its points.
pub proof fn lemma_code_points_insert(
    matched: Seq<(Seq<char>, u32)>,
    at: int,
    entry: (Seq<char>, u32),
)
    requires
        0 <= at <= matched.len(),
    ensures
        code_points(matched.insert(at, entry)) == code_points(matched) + entry.1,
    decreases matched.len(),
{
    let after = matched.insert(at, entry);
    if at == matched.len() {
        assert(after.drop_last() =~= matched);
    } else {
        assert(after.drop_last() =~= matched.drop_last().insert(at, entry));
        assert(after.last() == matched.last());
        lemma_code_points_insert(matched.drop_last(), at, entry);
    }
}

/// Code points are never negative.
pub proof fn lemma_code_points_nonnegative(matched: Seq<(Seq<char>, u32)>)
    ensures
        0 <= code_points(matched),
    decreases matched.len(),
{
    if matched.len() > 0 {
        lemma_code_points_nonnegative(matched.drop_last());
    }
}

/// One more submitted text adds the points of the code it names, if that
/// code counts and the text was not submitted before, and nothing otherwise.
pub proof fn lemma_redeem_one_points(
    codes: Seq<Code>,
    matched: Seq<(Seq<char>, u32)>,
    before: Seq<Seq<char>>,
    submitted: Seq<char>,
    now: Timestamp,
)
    ensures
        code_points(redeem_one(codes, matched, before, submitted, now)) == code_points(matched) + (
        if before.contains(submitted) {
            0
        } else {
            match find_code(codes, submitted) {
                Some(code) => if in_window(code, now) {
                    code.points as int
                } else {
                    0
                },
                None => 0,
            }
        }),
{
    if !before.contains(submitted) {
        match find_code(codes, submitted) {
            Some(code) => {
                if in_window(code, now) {
                    lemma_rank_bounds(keys(matched), code.code@);
                    lemma_code_points_insert(
                        matched,
                        rank(keys(matched), code.code@),
                        (code.code@, code.points),
                    );
                }
            },
            None => {},
        }
    }
}

/// The first codes never hold more points than all of them; one more code
/// adds its own.
pub proof fn lemma_code_points_prefix(matched: Seq<(Seq<char>, u32)>, i: int)
    requires
        0 <= i <= matched.len(),
    ensures
        0 <= code_points(matched.take(i)) <= code_points(matched),
        i < matched.len() ==> code_points(matched.take(i + 1)) == code_points(matched.take(i))
            + matched[i].1,
    decreases matched.len() - i,
{
    lemma_code_points_nonnegative(matched.take(i));
    if i == matched.len() {
        assert(matched.take(i) =~= matched);
    } else {
        lemma_code_points_prefix(matched, i + 1);
        assert(matched.take(i + 1).drop_last() =~= matched.take(i));
    }
}

/// Putting a text in at its rank keeps a list in order.
pub proof fn lemma_insert_nondecreasing(matched: Seq<(Seq<char>, u32)>, entry: (Seq<char>, u32))
    requires
        nondecreasing(keys(matched)),
    ensures
        nondecreasing(keys(matched.insert(rank(keys(matched), entry.0), entry))),
{
    let ks = keys(matched);
    let r = rank(ks, entry.0);
    lemma_rank_bounds(ks, entry.0);
    let ks2 = keys(matched.insert(r, entry));
    assert(ks2 =~= ks.insert(r, entry.0));
    assert forall|i: int, j: int| 0 <= i < j < ks2.len() implies !text_lt(
        #[trigger] ks2[j],
        #[trigger] ks2[i],
    ) by {
        if j < r {
            assert(ks2[i] == ks[i] && ks2[j] == ks[j]);
        } else if j == r {
            assert(ks2[i] == ks[i]);
            lemma_text_lt_order(ks[i], entry.0, ks[i]);
        } else if i < r {
            assert(ks2[i] == ks[i] && ks2[j] == ks[j - 1]);
        } else if i == r {
            assert(ks2[j] == ks[j - 1]);
            if j - 1 > r {
                assert(!text_lt(ks[j - 1], ks[r]));
            }
            lemma_text_lt_order(ks[j - 1], entry.0, ks[r]);
            lemma_text_lt_order(ks[r], entry.0, entry.0);
        } else {
            assert(ks2[i] == ks[i - 1] && ks2[j] == ks[j - 1]);
        }
    }
}

/// The redeemed codes are listed in the order of their texts.
pub proof fn lemma_redeemed_sorted(codes: Seq<Code>, submitted: Seq<Seq<char>>, now: Timestamp)
    ensures
        nondecreasing(keys(redeemed(codes, submitted, now))),
    decreases submitted.len(),
{
    if submitted.len() > 0 {
        let before = submitted.drop_last();
        let matched = redeemed(codes, before, now);
        lemma_redeemed_sorted(codes, before, now);
        if !before.contains(submitted.last()) {
            match find_code(codes, submitted.last()) {
                Some(code) => {
                    if in_window(code, now) {
                        lemma_insert_nondecreasing(matched, (code.code@, code.points));
                    }
                },
                None => {},
            }
        }
    }
}

/// Whether the submitted text names a code that counts at `now`, and
/// `entry` is that code's text and points.
pub open spec fn redeems(
    codes: Seq<Code>,
    submitted: Seq<char>,
    now: Timestamp,
    entry: (Seq<char>, u32),
) -> bool {
    find_code(codes, submitted) matches Some(code) && in_window(code, now) && entry == (
        code.code@,
        code.points,
    )
}

/// Every submitted text that names a code within its window has that code
/// among the redeemed ones, and every redeemed code is named so by a
/// submitted text. Texts that name no code, or a code outside its window,
/// add nothing.
pub proof fn lemma_redeemed_names(codes: Seq<Code>, submitted: Seq<Seq<char>>, now: Timestamp)
    ensures
        forall|i: int, entry: (Seq<char>, u32)|
            0 <= i < submitted.len() && #[trigger] redeems(codes, submitted[i], now, entry)
                ==> redeemed(codes, submitted, now).contains(entry),
        forall|entry: (Seq<char>, u32)|
            #[trigger] redeemed(codes, submitted, now).contains(entry) ==> exists|i: int|
                0 <= i < submitted.len() && #[trigger] redeems(codes, submitted[i], now, entry),
    decreases submitted.len(),
{
    if submitted.len() > 0 {
        let before = submitted.drop_last();
        let last = submitted.last();
        let matched = redeemed(codes, before, now);
        let after = redeemed(codes, submitted, now);
        lemma_redeemed_names(codes, before, now);
        let grows = !before.contains(last) && (find_code(codes, last) matches Some(
            code,
        ) && in_window(code, now));
        let at = if grows {
            rank(keys(matched), find_code(codes, last)->Some_0.code@)
        } else {
            0
        };
        if grows {
            lemma_rank_bounds(keys(matched), find_code(codes, last)->Some_0.code@);
        } else {
            assert(after == matched);
        }
        assert forall|k: int| 0 <= k < matched.len() implies after.contains(
            #[trigger] matched[k],
        ) by {
            if grows {
                if k < at {
                    assert(after[k] == matched[k]);
                } else {
                    assert(after[k + 1] == matched[k]);
                }
            }
        }
        assert forall|i: int, entry: (Seq<char>, u32)|
            0 <= i < submitted.len() && #[trigger] redeems(
                codes,
                submitted[i],
                now,
                entry,
            ) implies after.contains(entry) by {
            if i < before.len() {
                assert(before[i] == submitted[i]);
                assert(matched.contains(entry));
                let k = choose|k: int| 0 <= k < matched.len() && matched[k] == entry;
                assert(after.contains(matched[k]));
            } else if before.contains(last) {
                let j = choose|j: int| 0 <= j < before.len() && before[j] == last;
                assert(redeems(codes, before[j], now, entry));
                assert(matched.contains(entry));
                let k = choose|k: int| 0 <= k < matched.len() && matched[k] == entry;
                assert(after.contains(matched[k]));
            } else {
                assert(after[at] == entry);
            }
        }
        assert forall|entry: (Seq<char>, u32)| #[trigger] after.contains(entry) implies exists|
            i: int,
        |
            0 <= i < submitted.len() && #[trigger] redeems(codes, submitted[i], now, entry) by {
            let k = choose|k: int| 0 <= k < after.len() && after[k] == entry;
            if grows && k == at {
                assert(redeems(codes, submitted[submitted.len() - 1], now, after[k]));
            } else {
                let k0 = if grows && k > at {
                    k - 1
                } else {
                    k
                };
                assert(after[k] == matched[k0]);
                assert(matched.contains(matched[k0]));
                let i = choose|i: int|
                    0 <= i < before.len() && #[trigger] redeems(codes, before[i], now, matched[k0]);
                assert(redeems(codes, submitted[i], now, after[k]));
            }
        }
    }
}

/// Whether the string at `at` also stands at an earlier place.
pub fn submitted_before(strings: &Vec<String>, at: usize) -> (seen: bool)
    requires
        at < strings@.len(),
    ensures
        seen == texts(strings@).take(at as int).contains(strings@[at as int]@),
{
    let ghost earlier = texts(strings@).take(at as int);
    let mut j: usize = 0;
    while j < at
        invariant
            at < strings@.len(),
            j <= at,
            earlier == texts(strings@).take(at as int),
            forall|k: int| 0 <= k < j ==> earlier[k] != strings@[at as int]@,
        decreases at - j,
    {
        if str_eq(strings[j].as_str(), strings[at].as_str()) {
            proof {
                assert(earlier[j as int] == strings@[at as int]@);
            }
            return true;
        }
        j += 1;
    }
    false
}

/// Puts a redeemed code in at its place in the order of code texts.
pub fn insert_redeemed(matched: &mut Vec<(String, u32)>, code: &Code)
    ensures
        redeemed_view(final(matched)@) == redeemed_view(old(matched)@).insert(
            rank(keys(redeemed_view(old(matched)@)), code.code@),
            (code.code@, code.points),
        ),
{
    proof {
        assert(keys(redeemed_view(matched@)) =~= entry_keys(matched@));
    }
    let at = position(matched, code.code.as_str());
    matched.insert(at, (code.code.clone(), code.points));
    proof {
        assert(redeemed_view(matched@) =~= redeemed_view(old(matched)@).insert(
            at as int,
            (code.code@, code.points),
        ));
    }
}

/// `base` and the points of the redeemed codes together, if they fit in a
/// `u32`.
pub fn sum_code_points(base: u32, matched: &Vec<(String, u32)>) -> (sum: Option<u32>)
    ensures
        match sum {
            Some(s) => s == base + code_points(redeemed_view(matched@)),
            None => base + code_points(redeemed_view(matched@)) > u32::MAX,
        },
{
    let ghost view = redeemed_view(matched@);
    let mut total: u32 = base;
    let mut i: usize = 0;
    while i < matched.len()
        invariant
            view == redeemed_view(matched@),
            i <= view.len(),
            total == base + code_points(view.take(i as int)),
        decreases view.len() - i,
    {
        proof {
            lemma_code_points_prefix(view, i as int);
            lemma_code_points_prefix(view, i + 1);
        }
        let points = matched[i].1;
        if points > u32::MAX - total {
            return None;
        }
        total += points;
        i += 1;
    }
    proof {
        assert(view.take(view.len() as int) =~= view);
    }
    Some(total)
}

/// The texts of the redeemed codes, joined by single spaces.
pub fn join_names(matched: &Vec<(String, u32)>) -> (line: String)
    ensures
        line@ == joined(keys(redeemed_view(matched@))),
{
    let ghost names = keys(redeemed_view(matched@));
    let mut line = String::new();
    let mut i: usize = 0;
    while i < matched.len()
        invariant
            names == keys(redeemed_view(matched@)),
            i <= names.len(),
            line@ == joined(names.take(i as int)),
        decreases names.len() - i,
    {
        proof {
            reveal_strlit(" ");
            assert(" "@ =~= seq![' ']);
            assert(names.take(i + 1).drop_last() =~= names.take(i as int));
            assert(names.take(i + 1).last() == matched@[i as int].0@);
            if i == 0 {
                assert(joined(names.take(0)) =~= Seq::<char>::empty());
            }
        }
        if i > 0 {
            line.append(" ");
        }
        line.append(matched[i].0.as_str());
        proof {
            if i == 0 {
                assert(line@ =~= names.take(1)[0]);
            }
        }
        i += 1;
    }
    proof {
        assert(names.take(names.len() as int) =~= names);
    }
    line
}

} // verus!
