//! Identifiers: 128-bit UUIDs and their text.

use vstd::arithmetic::power::pow;
use vstd::prelude::*;
use vstd::std_specs::cmp::PartialEqSpec;

verus! {

/// A UUID as the number that its 128 bits make, most significant first.
pub type Uuid = u128;

/// The character of the hexadecimal digit `n`, in lower case.
pub open spec fn hex_digit(n: int) -> char {
    if n < 10 {
        (0x30 + n) as char
    } else {
        (0x57 + n) as char
    }
}

/// The hexadecimal digit of `id` at `position`, where 0 is the most significant
/// of the 32.
pub open spec fn uuid_digit(id: Uuid, position: int) -> int {
    (id as int / pow(16, (31 - position) as nat)) % 16
}

/// Which of the 32 digits stands at character `i` of the hyphenated form.
pub open spec fn digit_position(i: int) -> int {
    if i < 8 {
        i
    } else if i < 13 {
        i - 1
    } else if i < 18 {
        i - 2
    } else if i < 23 {
        i - 3
    } else {
        i - 4
    }
}

/// The hyphenated form of an identifier: 32 digits in groups of 8, 4, 4, 4 and
/// 12.
pub open spec fn uuid_text(id: Uuid) -> Seq<char> {
    Seq::new(
        36,
        |i: int|
            if i == 8 || i == 13 || i == 18 || i == 23 {
                '-'
            } else {
                hex_digit(uuid_digit(id, digit_position(i)))
            },
    )
}

#[verifier::external_type_specification]
#[verifier::external_body]
pub struct ExUuidError(uuid::Error);

/// What `uuid::Uuid::parse_str` makes of a text.
pub uninterp spec fn parsed_uuid(text: Seq<char>) -> Result<Uuid, uuid::Error>;

/// What an error of the `uuid` crate prints.
pub uninterp spec fn uuid_error_text(error: uuid::Error) -> Seq<char>;

/// `uuid::Uuid::new_v4`: a random identifier of version 4 and of the variant of
/// RFC 9562. Which one is left to chance.
#[verifier::external_body]
pub(crate) fn random_uuid() -> (id: Uuid)
    ensures
        uuid_digit(id, 12) == 4,
        8 <= uuid_digit(id, 16) <= 11,
{
    uuid::Uuid::new_v4().as_u128()
}

/// `uuid::Uuid`'s `Display`: the hyphenated form in lower case.
#[verifier::external_body]
pub(crate) fn print_uuid(id: Uuid) -> (text: String)
    ensures
        text@ == uuid_text(id),
{
    uuid::Uuid::from_u128(id).to_string()
}

/// `uuid::Uuid::parse_str`: a function of the text alone. It takes back what
/// `Display` writes.
#[verifier::external_body]
pub(crate) fn scan_uuid(text: &str) -> (result: Result<Uuid, uuid::Error>)
    ensures
        result == parsed_uuid(text@),
        forall|id: Uuid|
            text@ == #[trigger] uuid_text(id) ==> result is Ok && result->Ok_0 == id,
{
    uuid::Uuid::parse_str(text).map(|id| id.as_u128())
}

/// `uuid::Error`'s `Display`: a function of the error alone.
#[verifier::external_body]
pub(crate) fn print_uuid_error(error: &uuid::Error) -> (text: String)
    ensures
        text@ == uuid_error_text(*error),
{
    error.to_string()
}

/// The texts of `ids`, separated by a comma and a space.
pub open spec fn joined_ids(ids: Seq<Uuid>) -> Seq<char>
    decreases ids.len(),
{
    if ids.len() == 0 {
        Seq::empty()
    } else if ids.len() == 1 {
        uuid_text(ids[0])
    } else {
        joined_ids(ids.drop_last()) + ", "@ + uuid_text(ids.last())
    }
}

/// The texts of `ids`, separated by a comma and a space.
pub fn join_ids(ids: &Vec<Uuid>) -> (text: String)
    ensures
        text@ == joined_ids(ids@),
{
    let mut text: String = String::new();
    let mut i: usize = 0;
    while i < ids.len()
        invariant
            i <= ids.len(),
            text@ == joined_ids(ids@.take(i as int)),
        decreases ids.len() - i,
    {
        assert(ids@.take(i + 1).drop_last() =~= ids@.take(i as int));
        if i > 0 {
            text.append(", ");
        }
        text.append(print_uuid(ids[i]).as_str());
        if i == 0 {
            assert(text@ =~= uuid_text(ids@[0]));
        }
        i += 1;
    }
    assert(ids@.take(ids@.len() as int) =~= ids@);
    text
}

/// Whether each of `s` is less than those after it.
pub open spec fn increasing(s: Seq<Uuid>) -> bool {
    forall|i: int, j: int| 0 <= i < j < s.len() ==> s[i] < s[j]
}

/// The members of a finite set of identifiers, the least first.
pub open spec fn ascending(ids: Set<Uuid>) -> Seq<Uuid> {
    choose|s: Seq<Uuid>| increasing(s) && s.to_set() == ids
}

/// A set of identifiers has one increasing sequence.
pub proof fn lemma_ascending(s: Seq<Uuid>, ids: Set<Uuid>)
    requires
        increasing(s),
        s.to_set() == ids,
    ensures
        ascending(ids) == s,
{
    lemma_increasing_unique(s, ascending(ids));
}

proof fn lemma_increasing_unique(s: Seq<Uuid>, t: Seq<Uuid>)
    requires
        increasing(s),
        increasing(t),
        s.to_set() == t.to_set(),
    ensures
        s == t,
    decreases s.len(),
{
    if s.len() == 0 {
        if t.len() > 0 {
            assert(t.to_set().contains(t[0]));
        }
        assert(s =~= t);
    } else {
        assert(s.to_set().contains(s.last()));
        if t.len() == 0 {
            assert(!t.to_set().contains(s.last()));
        }
        assert(t.to_set().contains(t.last()));
        let i = choose|i: int| 0 <= i < t.len() && t[i] == s.last();
        let j = choose|j: int| 0 <= j < s.len() && s[j] == t.last();
        assert(s.last() == t.last());
        let a = s.drop_last();
        let b = t.drop_last();
        assert forall|x: Uuid| a.to_set().contains(x) <==> b.to_set().contains(x) by {
            if a.contains(x) {
                let k = choose|k: int| 0 <= k < a.len() && a[k] == x;
                assert(s[k] == x && x < s.last());
                assert(s.to_set().contains(x));
                let m = choose|m: int| 0 <= m < t.len() && t[m] == x;
                assert(b[m] == x);
            }
            if b.contains(x) {
                let k = choose|k: int| 0 <= k < b.len() && b[k] == x;
                assert(t[k] == x && x < t.last());
                assert(t.to_set().contains(x));
                let m = choose|m: int| 0 <= m < s.len() && s[m] == x;
                assert(a[m] == x);
            }
        }
        assert(a.to_set() =~= b.to_set());
        lemma_increasing_unique(a, b);
        assert(s =~= a.push(s.last()));
        assert(t =~= b.push(t.last()));
    }
}

/// A finite set of identifiers can be put in order.
pub proof fn ascending_holds_all(ids: Set<Uuid>)
    requires
        ids.finite(),
    ensures
        increasing(ascending(ids)),
        ascending(ids).to_set() == ids,
    decreases ids.len(),
{
    let s = lemma_ordered(ids);
    lemma_ascending(s, ids);
}

/// An increasing sequence of the members of a finite set.
proof fn lemma_ordered(ids: Set<Uuid>) -> (s: Seq<Uuid>)
    requires
        ids.finite(),
    ensures
        increasing(s),
        s.to_set() == ids,
    decreases ids.len(),
{
    if ids.len() == 0 {
        assert(Seq::<Uuid>::empty().to_set() =~= ids);
        Seq::empty()
    } else {
        let top = lemma_greatest(ids);
        let rest = lemma_ordered(ids.remove(top));
        let s = rest.push(top);
        assert forall|i: int, j: int| 0 <= i < j < s.len() implies s[i] < s[j] by {
            assert(rest.to_set().contains(rest[i]));
        }
        crate::tables::lemma_to_set_push(rest, top);
        assert(ids.remove(top).insert(top) =~= ids);
        s
    }
}

/// The greatest member of a finite set that has one.
proof fn lemma_greatest(ids: Set<Uuid>) -> (top: Uuid)
    requires
        ids.finite(),
        ids.len() > 0,
    ensures
        ids.contains(top),
        forall|x: Uuid| #[trigger] ids.contains(x) ==> x <= top,
    decreases ids.len(),
{
    let one = ids.choose();
    let rest = ids.remove(one);
    if rest.len() == 0 {
        assert forall|x: Uuid| #[trigger] ids.contains(x) implies x <= one by {
            if x != one {
                assert(rest.contains(x));
            }
        }
        one
    } else {
        let other = lemma_greatest(rest);
        let top = if other > one {
            other
        } else {
            one
        };
        assert forall|x: Uuid| #[trigger] ids.contains(x) implies x <= top by {
            if x != one {
                assert(rest.contains(x));
            }
        }
        top
    }
}

/// What is picked out of an increasing sequence is increasing.
proof fn lemma_filter_increasing(s: Seq<Uuid>, p: spec_fn(Uuid) -> bool)
    requires
        increasing(s),
    ensures
        increasing(s.filter(p)),
        forall|x: Uuid| #[trigger] s.filter(p).contains(x) <==> s.contains(x) && p(x),
    decreases s.len(),
{
    reveal(Seq::filter);
    if s.len() > 0 {
        let front = s.drop_last();
        lemma_filter_increasing(front, p);
        let kept = front.filter(p);
        assert forall|x: Uuid| #[trigger] s.filter(p).contains(x) <==> s.contains(x) && p(x) by {
            assert(kept.contains(x) <==> front.contains(x) && p(x));
            if front.contains(x) {
                let k = choose|k: int| 0 <= k < front.len() && front[k] == x;
                assert(s[k] == x);
            }
            if s.contains(x) && x != s.last() {
                let k = choose|k: int| 0 <= k < s.len() && s[k] == x;
                assert(front[k] == x);
            }
            assert(s.contains(s.last())) by {
                assert(s[s.len() - 1] == s.last());
            }
            if p(s.last()) {
                assert(s.filter(p) == kept.push(s.last()));
                if kept.contains(x) {
                    let k = choose|k: int| 0 <= k < kept.len() && kept[k] == x;
                    assert(s.filter(p)[k] == x);
                }
                assert(s.filter(p)[kept.len() as int] == s.last());
            }
        }
        assert forall|i: int, j: int| 0 <= i < j < s.filter(p).len() implies s.filter(p)[i]
            < s.filter(p)[j] by {
            if j == kept.len() {
                assert(kept.contains(kept[i]));
                let k = choose|k: int| 0 <= k < front.len() && front[k] == kept[i];
                assert(s[k] == kept[i]);
            }
        }
    }
}

/// The members of an increasing sequence that `p` holds of, the least first.
pub proof fn lemma_ascending_filter(s: Seq<Uuid>, p: spec_fn(Uuid) -> bool, members: Set<Uuid>)
    requires
        increasing(s),
        forall|x: Uuid| #[trigger] members.contains(x) <==> s.contains(x) && p(x),
    ensures
        ascending(members) == s.filter(p),
        increasing(s.filter(p)),
        members == s.filter(p).to_set(),
{
    lemma_filter_increasing(s, p);
    assert(s.filter(p).to_set() =~= members);
    lemma_ascending(s.filter(p), members);
}

/// The first of `s` that `p` holds of.
pub open spec fn first_such(s: Seq<Uuid>, p: spec_fn(Uuid) -> bool) -> Option<Uuid>
    decreases s.len(),
{
    if s.len() == 0 {
        None
    } else if p(s[0]) {
        Some(s[0])
    } else {
        first_such(s.drop_first(), p)
    }
}

pub proof fn lemma_first_such(s: Seq<Uuid>, p: spec_fn(Uuid) -> bool, i: int)
    requires
        0 <= i < s.len(),
        p(s[i]),
        forall|k: int| 0 <= k < i ==> !p(#[trigger] s[k]),
    ensures
        first_such(s, p) == Some(s[i]),
    decreases s.len(),
{
    if i > 0 {
        assert(!p(s[0]));
        assert forall|k: int| 0 <= k < i - 1 implies !p(#[trigger] s.drop_first()[k]) by {
            assert(s.drop_first()[k] == s[k + 1]);
        }
        lemma_first_such(s.drop_first(), p, i - 1);
    }
}

pub proof fn lemma_none_such(s: Seq<Uuid>, p: spec_fn(Uuid) -> bool)
    ensures
        first_such(s, p) is None <==> forall|k: int| 0 <= k < s.len() ==> !p(#[trigger] s[k]),
    decreases s.len(),
{
    if s.len() > 0 {
        lemma_none_such(s.drop_first(), p);
        if first_such(s, p) is None {
            assert forall|k: int| 0 <= k < s.len() implies !p(#[trigger] s[k]) by {
                if k > 0 {
                    assert(s[k] == s.drop_first()[k - 1]);
                }
            }
        }
        if forall|k: int| 0 <= k < s.len() ==> !p(#[trigger] s[k]) {
            assert(!p(s[0]));
            assert forall|k: int| 0 <= k < s.len() - 1 implies !p(
                #[trigger] s.drop_first()[k],
            ) by {
                assert(s.drop_first()[k] == s[k + 1]);
            }
        }
    }
}

/// `s` with every member kept where it stands first.
pub open spec fn first_seen<T>(s: Seq<T>) -> Seq<T>
    decreases s.len(),
{
    if s.len() == 0 {
        s
    } else {
        let rest = first_seen(s.drop_last());
        if rest.contains(s.last()) {
            rest
        } else {
            rest.push(s.last())
        }
    }
}

/// Whether `id` is one of `ids`.
pub fn contains_id(ids: &Vec<Uuid>, id: Uuid) -> (found: bool)
    ensures
        found == ids@.contains(id),
{
    let mut i: usize = 0;
    while i < ids.len()
        invariant
            i <= ids.len(),
            forall|k: int| 0 <= k < i ==> ids@[k] != id,
        decreases ids.len() - i,
    {
        if ids[i] == id {
            assert(ids@[i as int] == id);
            return true;
        }
        i += 1;
    }
    false
}

/// Whether `==` on a type is an equivalence of its values.
pub open spec fn is_equivalence<T: PartialEq>() -> bool {
    &&& T::obeys_eq_spec()
    &&& forall|a: T| #[trigger] a.eq_spec(&a)
    &&& forall|a: T, b: T| #[trigger] a.eq_spec(&b) ==> b.eq_spec(&a)
    &&& forall|a: T, b: T, c: T| #[trigger]
        a.eq_spec(&b) && #[trigger] b.eq_spec(&c) ==> a.eq_spec(&c)
}

/// Whether one of `s` equals `x`.
pub open spec fn holds_equal<T: PartialEq>(s: Seq<T>, x: T) -> bool {
    exists|i: int| 0 <= i < s.len() && (#[trigger] s[i]).eq_spec(&x)
}

/// `s` without every member that equals an earlier one.
pub open spec fn without_repeats<T: PartialEq>(s: Seq<T>) -> Seq<T>
    decreases s.len(),
{
    if s.len() == 0 {
        s
    } else {
        let rest = without_repeats(s.drop_last());
        if holds_equal(rest, s.last()) {
            rest
        } else {
            rest.push(s.last())
        }
    }
}

/// `values` without repetitions, in the order in which each is seen first.
pub fn deduplicate<T: Eq + std::hash::Hash + Clone>(values: Vec<T>) -> (result: Vec<T>)
    requires
        is_equivalence::<T>(),
    ensures
        result@ == without_repeats(values@),
{
    let mut result: Vec<T> = Vec::new();
    for value in it: values
        invariant
            is_equivalence::<T>(),
            it.seq() == values@,
            result@ == without_repeats(values@.take(it.index() as int)),
    {
        let ghost i: int = it.index() as int;
        assert(values@.take(i + 1).drop_last() =~= values@.take(i));
        assert(values@.take(i + 1).last() == value);
        let mut seen = false;
        let mut k: usize = 0;
        while k < result.len()
            invariant
                is_equivalence::<T>(),
                k <= result.len(),
                seen ==> holds_equal(result@, value),
                !seen ==> forall|m: int| 0 <= m < k ==> !(#[trigger] result@[m]).eq_spec(&value),
            decreases result.len() - k,
        {
            if result[k] == value {
                assert(result@[k as int].eq_spec(&value));
                seen = true;
            }
            k += 1;
        }
        if !seen {
            result.push(value);
        }
    }
    assert(values@.take(values@.len() as int) =~= values@);
    result
}

/// Deduplication keeps members of the sequence alone, no two of them equal and one for
/// each member, and leaves a sequence without repetitions as it is.
pub proof fn repeats_are_left_out<T: PartialEq>(s: Seq<T>)
    requires
        is_equivalence::<T>(),
    ensures
        ({
            let kept = without_repeats(s);
            &&& forall|i: int, j: int|
                0 <= i < j < kept.len() ==> !(#[trigger] kept[i].eq_spec(&kept[j]))
            &&& forall|i: int| 0 <= i < kept.len() ==> s.contains(#[trigger] kept[i])
            &&& forall|i: int| 0 <= i < s.len() ==> holds_equal(kept, #[trigger] s[i])
            &&& without_repeats(kept) == kept
        }),
    decreases s.len(),
{
    if s.len() > 0 {
        let front = s.drop_last();
        let rest = without_repeats(front);
        let kept = without_repeats(s);
        repeats_are_left_out(front);
        assert forall|i: int| 0 <= i < kept.len() implies s.contains(#[trigger] kept[i]) by {
            if i < rest.len() {
                assert(front.contains(rest[i]));
                let k = choose|k: int| 0 <= k < front.len() && front[k] == rest[i];
                assert(s[k] == kept[i]);
            } else {
                assert(s[s.len() - 1] == kept[i]);
            }
        }
        assert forall|i: int| 0 <= i < s.len() implies holds_equal(kept, #[trigger] s[i]) by {
            if i < front.len() {
                assert(holds_equal(rest, front[i]));
                let k = choose|k: int| 0 <= k < rest.len() && (#[trigger] rest[k]).eq_spec(&front[i]);
                assert(kept[k].eq_spec(&s[i]));
            } else if !holds_equal(rest, s.last()) {
                assert(kept[rest.len() as int].eq_spec(&s[i]));
            }
        }
        assert forall|i: int, j: int| 0 <= i < j < kept.len() implies !(
        #[trigger] kept[i].eq_spec(&kept[j])) by {
            if j == rest.len() {
                assert(!rest[i].eq_spec(&s.last()));
            }
        }
        if !holds_equal(rest, s.last()) {
            assert(kept.drop_last() =~= rest);
        }
    }
}

/// Where `==` compares the values themselves, every value is kept where it stands first.
pub proof fn repeats_of_values<T: PartialEq>(s: Seq<T>)
    requires
        forall|a: T, b: T| #[trigger] a.eq_spec(&b) <==> a == b,
    ensures
        without_repeats(s) == first_seen(s),
    decreases s.len(),
{
    if s.len() > 0 {
        repeats_of_values(s.drop_last());
        let rest = first_seen(s.drop_last());
        if rest.contains(s.last()) {
            let k = choose|k: int| 0 <= k < rest.len() && rest[k] == s.last();
            assert(rest[k].eq_spec(&s.last()));
        }
        if holds_equal(rest, s.last()) {
            let k = choose|k: int| 0 <= k < rest.len() && (#[trigger] rest[k]).eq_spec(&s.last());
            assert(rest[k] == s.last());
        }
    }
}

/// Deduplication keeps every member and no other, and no member twice.
pub proof fn first_seen_keeps_each_once<T>(s: Seq<T>)
    ensures
        first_seen(s).no_duplicates(),
        first_seen(s).to_set() == s.to_set(),
    decreases s.len(),
{
    if s.len() > 0 {
        let front = s.drop_last();
        first_seen_keeps_each_once(front);
        let kept = first_seen(s);
        assert forall|x: T| kept.to_set().contains(x) <==> s.to_set().contains(x) by {
            let rest = first_seen(front);
            assert(rest.to_set().contains(x) <==> front.to_set().contains(x));
            if s.contains(x) {
                let k = choose|k: int| 0 <= k < s.len() && s[k] == x;
                if k < s.len() - 1 {
                    assert(front[k] == x);
                    assert(rest.contains(x));
                    let m = choose|m: int| 0 <= m < rest.len() && rest[m] == x;
                    assert(kept[m] == x);
                } else if !rest.contains(x) {
                    assert(kept.last() == x);
                }
            }
            if kept.contains(x) {
                let k = choose|k: int| 0 <= k < kept.len() && kept[k] == x;
                if k < rest.len() {
                    assert(rest[k] == x);
                    assert(front.contains(x));
                    let m = choose|m: int| 0 <= m < front.len() && front[m] == x;
                    assert(s[m] == x);
                } else {
                    assert(s.last() == x);
                }
            }
        }
        assert(kept.to_set() =~= s.to_set());
    } else {
        assert(first_seen(s) =~= s);
    }
}

} // verus!
