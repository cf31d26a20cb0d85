//! Datum numbers: reading them off directory entries and handing out the next.

use crate::text::views;
use vstd::prelude::*;
use vstd::seq_lib::*;

verus! {

/// Every character is a decimal digit.
pub open spec fn all_digits(s: Seq<char>) -> bool {
    forall|i: int| 0 <= i < s.len() ==> '0' <= #[trigger] s[i] <= '9'
}

/// The number that a string of decimal digits writes.
pub open spec fn digits_value(s: Seq<char>) -> nat
    decreases s.len(),
{
    if s.len() == 0 {
        0
    } else {
        digits_value(s.drop_last()) * 10 + (s.last() as nat - '0' as nat) as nat
    }
}

/// What follows the plus sign where `name` begins with one, else all of it.
pub open spec fn id_body(name: Seq<char>) -> Seq<char> {
    if name.len() > 0 && name[0] == '+' {
        name.skip(1)
    } else {
        name
    }
}

/// The datum number that `name` writes: decimal digits, at least one, that a
/// plus sign may precede, and whose value a machine word holds.
pub open spec fn spec_parse_id(name: Seq<char>) -> Option<usize> {
    let body = id_body(name);
    if body.len() > 0 && all_digits(body) && digits_value(body) <= usize::MAX {
        Some(digits_value(body) as usize)
    } else {
        None
    }
}

/// A string of digits writes no smaller a number than what it begins with.
proof fn lemma_digits_value_grows(s: Seq<char>, i: int)
    requires
        all_digits(s),
        0 <= i <= s.len(),
    ensures
        digits_value(s.take(i)) <= digits_value(s),
    decreases s.len() - i,
{
    if i < s.len() {
        lemma_digits_value_grows(s, i + 1);
        assert(s.take(i + 1).drop_last() =~= s.take(i));
        assert('0' <= s[i] <= '9');
    } else {
        assert(s.take(i) =~= s);
    }
}

/// Reads a datum number off a directory entry's name.
pub fn parse_id(name: &str) -> (id: Option<usize>)
    ensures
        id == spec_parse_id(name@),
{
    let len: usize = name.unicode_len();
    let start: usize = if len > 0 && name.get_char(0) == '+' {
        1
    } else {
        0
    };
    let ghost body: Seq<char> = name@.skip(start as int);
    proof {
        assert(name@.skip(0) =~= name@);
        assert(body == id_body(name@));
    }
    if start == len {
        return None;
    }
    let mut value: usize = 0;
    let mut i: usize = start;
    while i < len
        invariant
            start <= i <= len,
            len == name@.len(),
            body == name@.skip(start as int),
            body == id_body(name@),
            all_digits(body.take(i - start)),
            value == digits_value(body.take(i - start)),
        decreases len - i,
    {
        let c: char = name.get_char(i);
        assert(c == body[i - start]);
        if c < '0' || c > '9' {
            return None;
        }
        let d: usize = (c as u32 - '0' as u32) as usize;
        proof {
            assert(body.take(i + 1 - start).drop_last() =~= body.take(i - start));
            assert(all_digits(body.take(i + 1 - start))) by {
                assert forall|j: int| 0 <= j < i + 1 - start implies '0' <= #[trigger] body.take(
                    i + 1 - start,
                )[j] <= '9' by {
                    if j < i - start {
                        assert(body.take(i - start)[j] == body[j]);
                    }
                }
            }
        }
        if value > (usize::MAX - d) / 10 {
            proof {
                if all_digits(body) {
                    lemma_digits_value_grows(body, i + 1 - start);
                }
            }
            return None;
        }
        value = value * 10 + d;
        i += 1;
    }
    proof {
        assert(body.take(len - start) =~= body);
    }
    Some(value)
}

/// The datum numbers among `names`, in the order of the names. A name that
/// writes no number is passed over.
pub open spec fn spec_ids(names: Seq<Seq<char>>) -> Seq<usize>
    decreases names.len(),
{
    if names.len() == 0 {
        Seq::empty()
    } else {
        let rest = spec_ids(names.drop_last());
        match spec_parse_id(names.last()) {
            Some(id) => rest.push(id),
            None => rest,
        }
    }
}

/// The numbers rise from each to the next, or stay.
pub open spec fn ascending(ids: Seq<usize>) -> bool {
    forall|i: int, j: int| 0 <= i < j < ids.len() ==> ids[i] <= ids[j]
}

/// Lists the datum numbers among the names of a directory's entries, in
/// ascending order.
pub fn list_ids(names: &Vec<String>) -> (ids: Vec<usize>)
    ensures
        ascending(ids@),
        ids@.to_multiset() == spec_ids(views(names@)).to_multiset(),
{
    let ghost all: Seq<Seq<char>> = views(names@);
    let mut ids: Vec<usize> = Vec::new();
    let mut i: usize = 0;
    assert(ids@ =~= spec_ids(all.take(0)));
    while i < names.len()
        invariant
            i <= names.len(),
            all == views(names@),
            ascending(ids@),
            ids@.to_multiset() == spec_ids(all.take(i as int)).to_multiset(),
        decreases names.len() - i,
    {
        proof {
            assert(all.take(i + 1).drop_last() =~= all.take(i as int));
            assert(all.take(i + 1).last() == names[i as int]@);
        }
        match parse_id(names[i].as_str()) {
            Some(id) => {
                let mut pos: usize = 0;
                while pos < ids.len() && ids[pos] <= id
                    invariant
                        pos <= ids.len(),
                        forall|k: int| 0 <= k < pos ==> ids[k] <= id,
                    decreases ids.len() - pos,
                {
                    pos += 1;
                }
                let ghost earlier: Seq<usize> = ids@;
                ids.insert(pos, id);
                proof {
                    to_multiset_insert(earlier, pos as int, id);
                    to_multiset_build(spec_ids(all.take(i as int)), id);
                    assert forall|a: int, b: int| 0 <= a < b < ids.len() implies ids[a] <= ids[b] by {
                        if a < pos && b > pos {
                            assert(ids[a] == earlier[a] && ids[b] == earlier[b - 1]);
                        } else if a > pos {
                            assert(ids[a] == earlier[a - 1] && ids[b] == earlier[b - 1]);
                        } else if a == pos {
                            assert(ids[b] == earlier[b - 1]);
                            assert(earlier[pos as int] <= earlier[b - 1]);
                        } else if b == pos {
                            assert(ids[a] == earlier[a]);
                        } else {
                            assert(ids[a] == earlier[a] && ids[b] == earlier[b]);
                        }
                    }
                }
            },
            None => {},
        }
        i += 1;
    }
    assert(all.take(names.len() as int) =~= all);
    ids
}

/// The number of the next datum: one more than the largest number in use,
/// and zero where none is.
pub open spec fn spec_next_id(ids: Seq<usize>) -> nat
    decreases ids.len(),
{
    if ids.len() == 0 {
        0
    } else {
        let rest = spec_next_id(ids.drop_last());
        if ids.last() + 1 > rest {
            (ids.last() + 1) as nat
        } else {
            rest
        }
    }
}

/// The next number is in use by no datum, and the number before it by one.
pub proof fn lemma_next_id(ids: Seq<usize>)
    ensures
        forall|i: int| 0 <= i < ids.len() ==> ids[i] < spec_next_id(ids),
        ids.len() > 0 ==> exists|i: int| 0 <= i < ids.len() && ids[i] + 1 == spec_next_id(ids),
    decreases ids.len(),
{
    if ids.len() > 0 {
        let rest = ids.drop_last();
        lemma_next_id(rest);
        assert forall|i: int| 0 <= i < ids.len() implies ids[i] < spec_next_id(ids) by {
            if i < rest.len() {
                assert(rest[i] == ids[i]);
            }
        }
        if ids.last() + 1 > spec_next_id(rest) {
            assert(ids[ids.len() - 1] + 1 == spec_next_id(ids));
        } else {
            assert(rest.len() > 0);
            let i = choose|i: int| 0 <= i < rest.len() && rest[i] + 1 == spec_next_id(rest);
            assert(ids[i] + 1 == spec_next_id(ids));
        }
    }
}

/// Determines the next available datum number. The first number issued is
/// zero. There is none where the largest machine word is in use.
pub fn next_id(ids: &Vec<usize>) -> (next: Option<usize>)
    ensures
        match next {
            Some(id) => id == spec_next_id(ids@),
            None => spec_next_id(ids@) > usize::MAX,
        },
{
    let mut next: usize = 0;
    let mut i: usize = 0;
    while i < ids.len()
        invariant
            i <= ids.len(),
            next == spec_next_id(ids@.take(i as int)),
        decreases ids.len() - i,
    {
        proof {
            assert(ids@.take(i + 1).drop_last() =~= ids@.take(i as int));
            assert(ids@.take(ids.len() as int) =~= ids@);
            lemma_next_id(ids@);
            lemma_next_id(ids@.take(i + 1));
        }
        if ids[i] == usize::MAX {
            return None;
        }
        if ids[i] + 1 > next {
            next = ids[i] + 1;
        }
        i += 1;
    }
    assert(ids@.take(ids.len() as int) =~= ids@);
    Some(next)
}

} // verus!
