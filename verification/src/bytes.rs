//! Byte strings: ordering, prefixes and the key ranges that a prefix spans.
//!
//! Every table of the storage layer orders its keys bytewise, a shorter key
//! before its extensions. The functions here state that order, and the range
//! `[prefix, upper bound)` that holds exactly the keys with a given prefix.

use vstd::prelude::*;

verus! {

/// `a` and `b` agree on their first `n` bytes, and there `a` ends or goes on with a smaller byte.
pub open spec fn lex_less_at(a: Seq<u8>, b: Seq<u8>, n: int) -> bool {
    &&& 0 <= n <= a.len()
    &&& n < b.len()
    &&& forall|i: int| 0 <= i < n ==> a[i] == b[i]
    &&& (n == a.len() || a[n] < b[n])
}

/// `a` comes strictly before `b` in the order of the keys.
pub open spec fn lex_lt(a: Seq<u8>, b: Seq<u8>) -> bool {
    exists|n: int| lex_less_at(a, b, n)
}

/// `a` comes before `b` or is equal to it.
pub open spec fn lex_le(a: Seq<u8>, b: Seq<u8>) -> bool {
    a == b || lex_lt(a, b)
}

/// `key` begins with `prefix`.
pub open spec fn has_prefix(key: Seq<u8>, prefix: Seq<u8>) -> bool {
    &&& prefix.len() <= key.len()
    &&& forall|i: int| 0 <= i < prefix.len() ==> key[i] == prefix[i]
}

/// The next byte string of the same length, counted as a number with its first byte on top; `None`
/// where every byte is `0xff`, and so there is none.
pub open spec fn upper_bound(prefix: Seq<u8>) -> Option<Seq<u8>>
    decreases prefix.len(),
{
    if prefix.len() == 0 {
        None
    } else if prefix.last() == 0xff {
        match upper_bound(prefix.drop_last()) {
            Some(u) => Some(u.push(0)),
            None => None,
        }
    } else {
        Some(prefix.drop_last().push((prefix.last() + 1) as u8))
    }
}

/// `key` lies in `[lower, upper)`; without an upper end, at or above `lower`.
pub open spec fn in_range(key: Seq<u8>, lower: Seq<u8>, upper: Option<Seq<u8>>) -> bool {
    lex_le(lower, key) && (upper matches Some(u) ==> lex_lt(key, u))
}

/// The keys stand in strictly ascending order.
pub open spec fn ascending(keys: Seq<Seq<u8>>) -> bool {
    forall|i: int, j: int| 0 <= i < j < keys.len() ==> #[trigger] lex_lt(keys[i], keys[j])
}

/// The views of a list of byte strings.
pub open spec fn byte_views(v: Seq<Vec<u8>>) -> Seq<Seq<u8>> {
    v.map_values(|k: Vec<u8>| k@)
}

/// The order of the keys is irreflexive.
pub proof fn lex_lt_irreflexive(a: Seq<u8>)
    ensures
        !lex_lt(a, a),
{
}

/// The order of the keys is transitive.
pub proof fn lex_lt_transitive(a: Seq<u8>, b: Seq<u8>, c: Seq<u8>)
    requires
        lex_lt(a, b),
        lex_lt(b, c),
    ensures
        lex_lt(a, c),
{
    let n = choose|n: int| lex_less_at(a, b, n);
    let m = choose|m: int| lex_less_at(b, c, m);
    if n <= m {
        assert(lex_less_at(a, c, n));
    } else {
        assert(lex_less_at(a, c, m));
    }
}

/// Of two distinct keys one comes before the other.
pub proof fn lex_lt_total(a: Seq<u8>, b: Seq<u8>)
    ensures
        lex_lt(a, b) || a == b || lex_lt(b, a),
{
    lex_total_from(a, b, 0);
}

proof fn lex_total_from(a: Seq<u8>, b: Seq<u8>, n: int)
    requires
        0 <= n <= a.len(),
        n <= b.len(),
        forall|i: int| 0 <= i < n ==> a[i] == b[i],
    ensures
        lex_lt(a, b) || a == b || lex_lt(b, a),
    decreases a.len() - n,
{
    if n == a.len() && n == b.len() {
        assert(a =~= b);
    } else if n == a.len() {
        assert(lex_less_at(a, b, n));
    } else if n == b.len() {
        assert(lex_less_at(b, a, n));
    } else if a[n] < b[n] {
        assert(lex_less_at(a, b, n));
    } else if b[n] < a[n] {
        assert(lex_less_at(b, a, n));
    } else {
        lex_total_from(a, b, n + 1);
    }
}

/// No two keys come before each other.
pub proof fn lex_lt_asymmetric(a: Seq<u8>, b: Seq<u8>)
    requires
        lex_lt(a, b),
    ensures
        !lex_lt(b, a),
        a != b,
{
    if lex_lt(b, a) {
        lex_lt_transitive(a, b, a);
    }
    lex_lt_irreflexive(a);
}

/// A key comes strictly before each of its proper extensions.
pub proof fn prefix_comes_first(prefix: Seq<u8>, key: Seq<u8>)
    requires
        has_prefix(key, prefix),
    ensures
        lex_le(prefix, key),
{
    if prefix.len() == key.len() {
        assert(prefix =~= key);
    } else {
        assert(lex_less_at(prefix, key, prefix.len() as int));
    }
}

/// Prepending the same bytes to two keys keeps their order.
pub proof fn common_prefix_keeps_order(prefix: Seq<u8>, a: Seq<u8>, b: Seq<u8>)
    ensures
        lex_lt(prefix + a, prefix + b) <==> lex_lt(a, b),
{
    if lex_lt(a, b) {
        let n = choose|n: int| lex_less_at(a, b, n);
        assert(lex_less_at(prefix + a, prefix + b, prefix.len() + n));
    }
    if lex_lt(prefix + a, prefix + b) {
        let n = choose|n: int| lex_less_at(prefix + a, prefix + b, n);
        assert((prefix + a)[n] == (prefix + a)[n]);
        if n < prefix.len() {
            assert((prefix + a)[n] == prefix[n]);
            assert((prefix + b)[n] == prefix[n]);
        }
        let m = n - prefix.len();
        assert forall|i: int| 0 <= i < m implies a[i] == b[i] by {
            assert((prefix + a)[prefix.len() + i] == a[i]);
            assert((prefix + b)[prefix.len() + i] == b[i]);
        }
        assert(lex_less_at(a, b, m));
    }
}

/// An upper bound has the length of the prefix that it belongs to.
pub proof fn upper_bound_keeps_length(prefix: Seq<u8>)
    ensures
        upper_bound(prefix) matches Some(u) ==> u.len() == prefix.len(),
    decreases prefix.len(),
{
    if prefix.len() > 0 {
        upper_bound_keeps_length(prefix.drop_last());
    }
}

/// Among the keys that are at least as long as a prefix, the range from the prefix to its upper
/// bound holds exactly those that begin with it.
pub proof fn upper_bound_spans_prefix(prefix: Seq<u8>, key: Seq<u8>)
    requires
        key.len() >= prefix.len(),
    ensures
        has_prefix(key, prefix) <==> in_range(key, prefix, upper_bound(prefix)),
    decreases prefix.len(),
{
    if has_prefix(key, prefix) {
        prefix_comes_first(prefix, key);
    }
    if prefix.len() == 0 {
        assert(has_prefix(key, prefix));
    } else {
        let head = prefix.drop_last();
        let last = prefix.last();
        upper_bound_spans_prefix(head, key);
        assert(has_prefix(prefix, head));
        prefix_comes_first(head, prefix);
        if last == 0xff {
            carry_spans_prefix(prefix, key);
        } else {
            let next = head.push((last + 1) as u8);
            if has_prefix(key, prefix) {
                assert(lex_less_at(key, next, head.len() as int));
            }
            if in_range(key, prefix, upper_bound(prefix)) {
                let m = choose|m: int| lex_less_at(key, next, m);
                if lex_lt(prefix, key) {
                    let n = choose|n: int| lex_less_at(prefix, key, n);
                    if m < head.len() {
                        assert(next[m] == prefix[m]);
                        assert(lex_less_at(key, prefix, m));
                        lex_lt_asymmetric(prefix, key);
                    }
                    if n < head.len() {
                        assert(next[n] == prefix[n]);
                        assert(lex_less_at(next, key, n));
                        lex_lt_asymmetric(key, next);
                    }
                    assert(m == head.len());
                    if n == head.len() {
                        assert(prefix[n] == last);
                        assert(next[n] == last + 1);
                        assert(false);
                    }
                    assert(n == prefix.len());
                }
                assert(has_prefix(key, prefix));
            }
        }
    }
}

proof fn carry_spans_prefix(prefix: Seq<u8>, key: Seq<u8>)
    requires
        prefix.len() > 0,
        prefix.last() == 0xff,
        key.len() >= prefix.len(),
        has_prefix(key, prefix.drop_last()) <==> in_range(
            key,
            prefix.drop_last(),
            upper_bound(prefix.drop_last()),
        ),
    ensures
        has_prefix(key, prefix) <==> in_range(key, prefix, upper_bound(prefix)),
{
    let head = prefix.drop_last();
    upper_bound_keeps_length(head);
    assert(has_prefix(prefix, head));
    prefix_comes_first(head, prefix);
    if has_prefix(key, prefix) {
        prefix_comes_first(prefix, key);
        assert(has_prefix(key, head));
        if upper_bound(head) is Some {
            let u = upper_bound(head)->0;
            assert(lex_less_at(u, u.push(0), u.len() as int));
            lex_lt_transitive(key, u, u.push(0));
        }
    }
    if in_range(key, prefix, upper_bound(prefix)) {
        if upper_bound(head) is Some {
            let u = upper_bound(head)->0;
            let m = choose|m: int| lex_less_at(key, u.push(0), m);
            if m == u.len() {
                assert(u.push(0)[m] == 0);
            }
            assert(m < u.len());
            assert(u.push(0)[m] == u[m]);
            assert(lex_less_at(key, u, m));
        }
        if lex_lt(prefix, key) && lex_lt(head, prefix) {
            lex_lt_transitive(head, prefix, key);
        }
        assert(has_prefix(key, head));
        if lex_lt(prefix, key) {
            let n = choose|n: int| lex_less_at(prefix, key, n);
            if n < head.len() {
                assert(prefix[n] == head[n]);
                assert(key[n] == head[n]);
            }
            if n == head.len() {
                assert(prefix[n] == 0xff);
            }
            assert(n == prefix.len());
        }
        assert(has_prefix(key, prefix));
    }
}

/// An upper bound, where there is one, lies above the prefix that it belongs to.
pub proof fn upper_bound_is_above(prefix: Seq<u8>)
    ensures
        upper_bound(prefix) matches Some(u) ==> lex_lt(prefix, u),
{
    assert(has_prefix(prefix, prefix));
    upper_bound_spans_prefix(prefix, prefix);
}

/// A byte string as a number, its first byte on top.
pub open spec fn as_number(s: Seq<u8>) -> nat
    decreases s.len(),
{
    if s.len() == 0 {
        0
    } else {
        256 * as_number(s.drop_last()) + s.last() as nat
    }
}

/// The upper bound is the next number.
pub proof fn upper_bound_is_next_number(prefix: Seq<u8>)
    ensures
        upper_bound(prefix) matches Some(u) ==> as_number(u) == as_number(prefix) + 1,
        upper_bound(prefix) is None ==> forall|i: int|
            0 <= i < prefix.len() ==> prefix[i] == 0xff,
    decreases prefix.len(),
{
    if prefix.len() > 0 {
        let head = prefix.drop_last();
        upper_bound_is_next_number(head);
        if prefix.last() == 0xff {
            if upper_bound(head) is Some {
                let u = upper_bound(head)->0;
                assert(u.push(0).drop_last() =~= u);
            } else {
                assert forall|i: int| 0 <= i < prefix.len() implies prefix[i] == 0xff by {
                    if i < head.len() {
                        assert(head[i] == prefix[i]);
                    }
                }
            }
        } else {
            let next = head.push((prefix.last() + 1) as u8);
            assert(next.drop_last() =~= head);
        }
    }
}

/// Whether `a` comes strictly before `b`.
pub fn bytes_lt(a: &[u8], b: &[u8]) -> (r: bool)
    ensures
        r == lex_lt(a@, b@),
{
    let mut i: usize = 0;
    while i < a.len() && i < b.len()
        invariant
            i <= a.len(),
            i <= b.len(),
            forall|j: int| 0 <= j < i ==> a[j] == b[j],
        decreases a.len() - i,
    {
        if a[i] < b[i] {
            proof {
                assert(lex_less_at(a@, b@, i as int));
            }
            return true;
        }
        if a[i] > b[i] {
            proof {
                assert(lex_less_at(b@, a@, i as int));
                lex_lt_asymmetric(b@, a@);
            }
            return false;
        }
        i = i + 1;
    }
    proof {
        if i < b.len() {
            assert(lex_less_at(a@, b@, i as int));
        } else if i < a.len() {
            assert(lex_less_at(b@, a@, i as int));
            lex_lt_asymmetric(b@, a@);
        } else {
            assert(a@ =~= b@);
            lex_lt_irreflexive(a@);
        }
    }
    i < b.len()
}

/// Whether `a` and `b` hold the same bytes.
pub fn bytes_eq(a: &[u8], b: &[u8]) -> (r: bool)
    ensures
        r == (a@ == b@),
{
    if a.len() != b.len() {
        return false;
    }
    let mut i: usize = 0;
    while i < a.len()
        invariant
            i <= a.len(),
            a.len() == b.len(),
            forall|j: int| 0 <= j < i ==> a[j] == b[j],
        decreases a.len() - i,
    {
        if a[i] != b[i] {
            return false;
        }
        i = i + 1;
    }
    proof {
        assert(a@ =~= b@);
    }
    true
}

/// Whether `key` begins with `prefix`.
pub fn starts_with(key: &[u8], prefix: &[u8]) -> (r: bool)
    ensures
        r == has_prefix(key@, prefix@),
{
    if key.len() < prefix.len() {
        return false;
    }
    let mut i: usize = 0;
    while i < prefix.len()
        invariant
            i <= prefix.len(),
            prefix.len() <= key.len(),
            forall|j: int| 0 <= j < i ==> key[j] == prefix[j],
        decreases prefix.len() - i,
    {
        if key[i] != prefix[i] {
            return false;
        }
        i = i + 1;
    }
    true
}

/// A copy of `bytes[from..to]`.
pub fn copy_range(bytes: &[u8], from: usize, to: usize) -> (r: Vec<u8>)
    requires
        from <= to <= bytes.len(),
    ensures
        r@ == bytes@.subrange(from as int, to as int),
{
    let mut out: Vec<u8> = Vec::with_capacity(to - from);
    let mut i: usize = from;
    while i < to
        invariant
            from <= i <= to <= bytes.len(),
            out@ == bytes@.subrange(from as int, i as int),
        decreases to - i,
    {
        out.push(bytes[i]);
        i = i + 1;
    }
    out
}

/// A copy of `bytes`.
pub fn copy_bytes(bytes: &[u8]) -> (r: Vec<u8>)
    ensures
        r@ == bytes@,
{
    let r = copy_range(bytes, 0, bytes.len());
    proof {
        assert(bytes@.subrange(0, bytes@.len() as int) =~= bytes@);
    }
    r
}

/// `a` followed by `b`.
pub fn concat(a: &[u8], b: &[u8]) -> (r: Vec<u8>)
    ensures
        r@ == a@ + b@,
{
    let mut out = copy_bytes(a);
    let mut i: usize = 0;
    while i < b.len()
        invariant
            i <= b.len(),
            out@ == a@ + b@.subrange(0, i as int),
        decreases b.len() - i,
    {
        out.push(b[i]);
        i = i + 1;
        proof {
            assert(b@.subrange(0, i as int) =~= b@.subrange(0, i - 1).push(b@[i - 1]));
        }
    }
    proof {
        assert(b@.subrange(0, b@.len() as int) =~= b@);
    }
    out
}

/// The exclusive upper end of the range of keys that begin with `prefix`: the next byte string of
/// the same length. `None` where every byte is `0xff`.
pub fn prefix_upper_bound(prefix: &[u8]) -> (r: Option<Vec<u8>>)
    ensures
        r matches Some(u) ==> upper_bound(prefix@) == Some(u@),
        r is None ==> upper_bound(prefix@) is None,
{
    let mut ub = copy_bytes(prefix);
    let mut len: usize = prefix.len();
    let ghost mut zeros: Seq<u8> = Seq::empty();
    proof {
        assert(prefix@.subrange(0, len as int) =~= prefix@);
    }
    while len > 0
        invariant
            len <= prefix.len(),
            ub@ == prefix@.subrange(0, len as int) + zeros,
            zeros.len() == prefix.len() - len,
            upper_bound(prefix@.subrange(0, len as int)) is None ==> upper_bound(prefix@) is None,
            upper_bound(prefix@.subrange(0, len as int)) matches Some(u) ==> upper_bound(prefix@)
                == Some(u + zeros),
        decreases len,
    {
        let ghost cut = prefix@.subrange(0, len as int);
        let last: u8 = ub[len - 1];
        proof {
            assert(cut.last() == last);
            assert(cut.drop_last() =~= prefix@.subrange(0, len - 1));
        }
        if last < 0xff {
            ub[len - 1] = last + 1;
            proof {
                assert(ub@ =~= cut.drop_last().push((last + 1) as u8) + zeros);
            }
            return Some(ub);
        }
        ub[len - 1] = 0;
        len = len - 1;
        proof {
            let more = seq![0u8] + zeros;
            assert(ub@ =~= prefix@.subrange(0, len as int) + more);
            if upper_bound(cut.drop_last()) is Some {
                let u = upper_bound(cut.drop_last())->0;
                assert(u.push(0) + zeros =~= u + more);
            }
            zeros = more;
        }
    }
    None
}

/// A byte string comes before another exactly if it is a shorter beginning of it, or is the lower of
/// the two where they first differ.
pub proof fn first_difference_decides(a: Seq<u8>, b: Seq<u8>, n: int)
    requires
        0 <= n <= a.len(),
        n <= b.len(),
        a.subrange(0, n) == b.subrange(0, n),
    ensures
        n < a.len() && n < b.len() && a[n] < b[n] ==> lex_lt(a, b) && !lex_lt(b, a),
        n == a.len() && n < b.len() ==> lex_lt(a, b) && !lex_lt(b, a),
        lex_le(a, b) <==> a == b || lex_lt(a, b),
{
    assert forall|i: int| 0 <= i < n implies a[i] == b[i] by {
        assert(a.subrange(0, n)[i] == a[i]);
        assert(b.subrange(0, n)[i] == b[i]);
    }
    if (n < a.len() && n < b.len() && a[n] < b[n]) || (n == a.len() && n < b.len()) {
        assert(lex_less_at(a, b, n));
        lex_lt_asymmetric(a, b);
    }
}

/// A key lies in a range exactly if it is neither below its lower end nor at or above its upper end,
/// where it has one.
pub proof fn ranges_hold_what_lies_between(key: Seq<u8>, lower: Seq<u8>, upper: Seq<u8>)
    ensures
        in_range(key, lower, None) <==> key == lower || lex_lt(lower, key),
        in_range(key, lower, Some(upper)) <==> (key == lower || lex_lt(lower, key)) && lex_lt(
            key,
            upper,
        ),
{
}

} // verus!
