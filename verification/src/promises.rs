//! What callers can rely on, in terms of what they send and what they get back.

pub mod artifacts;
pub mod claims;
pub mod keeping;
pub mod labels;
pub mod queries;
pub mod reading;
pub mod refusals;
pub mod replies;
pub mod requests;
pub mod settings;
pub mod transfers;

use crate::ids::{first_seen, first_seen_keeps_each_once};
use crate::text::is_white_space;
use vstd::prelude::*;

verus! {

/// Whether one member of a sequence stands somewhere before another.
pub open spec fn has_before<T>(whole: Seq<T>, x: T, y: T) -> bool {
    exists|a: int, b: int| 0 <= a < b < whole.len() && whole[a] == x && whole[b] == y
}

/// Whether a sequence keeps the order of another: of two of its members the former
/// stands before the latter there.
pub open spec fn keeps_the_order<T>(part: Seq<T>, whole: Seq<T>) -> bool {
    forall|i: int, j: int|
        0 <= i < j < part.len() ==> #[trigger] has_before(whole, part[i], part[j])
}

/// What is picked out of a sequence are its members that fit, in their order.
pub proof fn lemma_picked<T>(s: Seq<T>, p: spec_fn(T) -> bool)
    ensures
        forall|x: T| #[trigger] s.filter(p).contains(x) <==> s.contains(x) && p(x),
        s.no_duplicates() ==> s.filter(p).no_duplicates(),
        keeps_the_order(s.filter(p), s),
    decreases s.len(),
{
    reveal(Seq::filter);
    if s.len() > 0 {
        let front = s.drop_last();
        let last = s.last();
        lemma_picked(front, p);
        let kept = front.filter(p);
        let all = s.filter(p);
        assert(s[s.len() - 1] == last);
        assert forall|x: T| #[trigger] all.contains(x) <==> s.contains(x) && p(x) by {
            assert(kept.contains(x) <==> front.contains(x) && p(x));
            if front.contains(x) {
                let k = choose|k: int| 0 <= k < front.len() && front[k] == x;
                assert(s[k] == x);
            }
            if s.contains(x) && x != last {
                let k = choose|k: int| 0 <= k < s.len() && s[k] == x;
                assert(front[k] == x);
            }
            if p(last) {
                assert(all[kept.len() as int] == last);
                if kept.contains(x) {
                    let k = choose|k: int| 0 <= k < kept.len() && kept[k] == x;
                    assert(all[k] == x);
                }
                if all.contains(x) && x != last {
                    let k = choose|k: int| 0 <= k < all.len() && all[k] == x;
                    assert(kept[k] == x);
                }
            }
        }
        assert forall|i: int, j: int| 0 <= i < j < all.len() implies #[trigger] has_before(
            s,
            all[i],
            all[j],
        ) by {
            if j < kept.len() {
                assert(all[i] == kept[i] && all[j] == kept[j]);
                assert(has_before(front, kept[i], kept[j]));
                let (a, b) = choose|a: int, b: int|
                    0 <= a < b < front.len() && front[a] == kept[i] && front[b] == kept[j];
                assert(s[a] == all[i] && s[b] == all[j]);
            } else {
                assert(all[i] == kept[i]);
                assert(kept.contains(kept[i]));
                let a = choose|a: int| 0 <= a < front.len() && front[a] == kept[i];
                assert(s[a] == all[i] && s[s.len() - 1] == all[j]);
            }
        }
        if s.no_duplicates() {
            assert(front.no_duplicates()) by {
                assert forall|i: int, j: int|
                    0 <= i < front.len() && 0 <= j < front.len() && i != j implies front[i]
                    != front[j] by {
                    assert(s[i] != s[j]);
                }
            }
            assert forall|i: int, j: int|
                0 <= i < all.len() && 0 <= j < all.len() && i != j implies all[i] != all[j] by {
                if i == kept.len() {
                    assert(kept.contains(all[j]));
                    let k = choose|k: int| 0 <= k < front.len() && front[k] == all[j];
                    assert(s[k] != s[s.len() - 1]);
                } else if j == kept.len() {
                    assert(kept.contains(all[i]));
                    let k = choose|k: int| 0 <= k < front.len() && front[k] == all[i];
                    assert(s[k] != s[s.len() - 1]);
                }
            }
        }
    }
}

/// Whether a sequence has a member before the given place.
pub open spec fn has_until<T>(s: Seq<T>, x: T, end: int) -> bool {
    exists|a: int| 0 <= a < end && s[a] == x
}

/// Whether a sequence holds the members of another, each once, in the order in which
/// they are first seen.
pub open spec fn is_each_once<T>(once: Seq<T>, all: Seq<T>) -> bool {
    &&& once.no_duplicates()
    &&& forall|x: T| #[trigger] once.contains(x) <==> all.contains(x)
    &&& forall|i: int, j: int, b: int|
        #![trigger once[i], once[j], all[b]]
        0 <= i < j < once.len() && 0 <= b < all.len() && all[b] == once[j] ==> has_until(
            all,
            once[i],
            b,
        )
}

/// Deduplication keeps every member where it is first seen.
pub proof fn lemma_each_once<T>(s: Seq<T>)
    ensures
        is_each_once(first_seen(s), s),
    decreases s.len(),
{
    first_seen_keeps_each_once(s);
    let once = first_seen(s);
    assert forall|x: T| #[trigger] once.contains(x) <==> s.contains(x) by {
        assert(once.to_set().contains(x) <==> s.to_set().contains(x));
    }
    if s.len() > 0 {
        let front = s.drop_last();
        let rest = first_seen(front);
        lemma_each_once(front);
        assert forall|i: int, j: int, b: int|
            #![trigger once[i], once[j], s[b]]
            0 <= i < j < once.len() && 0 <= b < s.len() && s[b] == once[j] implies has_until(
            s,
            once[i],
            b,
        ) by {
            assert(once[i] == rest[i]);
            assert(rest.contains(rest[i]));
            if j < rest.len() {
                assert(once[j] == rest[j]);
                if b < front.len() {
                    assert(front[b] == rest[j]);
                    assert(has_until(front, rest[i], b));
                    let a = choose|a: int| 0 <= a < b && front[a] == rest[i];
                    assert(s[a] == once[i]);
                } else {
                    let a = choose|a: int| 0 <= a < front.len() && front[a] == rest[i];
                    assert(s[a] == once[i]);
                }
            } else {
                if b < front.len() {
                    assert(front[b] == s.last());
                    assert(front.contains(s.last()));
                    assert(rest.contains(s.last()));
                }
                let a = choose|a: int| 0 <= a < front.len() && front[a] == rest[i];
                assert(s[a] == once[i]);
            }
        }
    }
}

/// Whether a text is another without the white space at its ends.
pub open spec fn is_trimmed_from(text: Seq<char>, whole: Seq<char>) -> bool {
    &&& exists|start: int|
        {
            &&& 0 <= start <= whole.len() - text.len()
            &&& text == #[trigger] whole.subrange(start, start + text.len())
            &&& forall|i: int|
                0 <= i < start || start + text.len() <= i < whole.len() ==> is_white_space(
                    #[trigger] whole[i],
                )
        }
    &&& text.len() > 0 ==> !is_white_space(text[0]) && !is_white_space(text.last())
}

} // verus!
