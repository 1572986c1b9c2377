use vstd::prelude::*;

verus! {

/// `a` and `b` agree on their first `i` bytes, and there `a` either ends
/// while `b` goes on, or has the smaller byte.
pub open spec fn bytes_lt_at(a: Seq<u8>, b: Seq<u8>, i: int) -> bool {
    &&& 0 <= i <= a.len()
    &&& i <= b.len()
    &&& a.take(i) == b.take(i)
    &&& ((i == a.len() && i < b.len()) || (i < a.len() && i < b.len() && a[i] < b[i]))
}

/// `a` sorts strictly before `b` in byte-wise dictionary order.
pub open spec fn bytes_lt(a: Seq<u8>, b: Seq<u8>) -> bool {
    exists|i: int| #[trigger] bytes_lt_at(a, b, i)
}

/// Byte-wise dictionary order is transitive.
pub proof fn lemma_bytes_lt_transitive(a: Seq<u8>, b: Seq<u8>, c: Seq<u8>)
    requires
        bytes_lt(a, b),
        bytes_lt(b, c),
    ensures
        bytes_lt(a, c),
{
    let i = choose|i: int| #[trigger] bytes_lt_at(a, b, i);
    let j = choose|j: int| #[trigger] bytes_lt_at(b, c, j);
    if i < j {
        assert(a.take(i) =~= c.take(i)) by {
            assert forall|k: int| 0 <= k < i implies a.take(i)[k] == c.take(i)[k] by {
                assert(a.take(i)[k] == b.take(i)[k]);
                assert(b.take(j)[k] == c.take(j)[k]);
            }
        }
        assert(b.take(j)[i] == c.take(j)[i]);
        assert(bytes_lt_at(a, c, i));
    } else if j < i {
        assert(a.take(j) =~= c.take(j)) by {
            assert forall|k: int| 0 <= k < j implies a.take(j)[k] == c.take(j)[k] by {
                assert(a.take(i)[k] == b.take(i)[k]);
                assert(b.take(j)[k] == c.take(j)[k]);
            }
        }
        assert(a.take(i)[j] == b.take(i)[j]);
        assert(bytes_lt_at(a, c, j));
    } else {
        assert(a.take(i) =~= c.take(i));
        assert(bytes_lt_at(a, c, i));
    }
}

/// Compares two byte strings in dictionary order: negative when `a` comes
/// first, positive when `b` does, zero when they are equal.
pub fn compare_bytes(a: &[u8], b: &[u8]) -> (r: i8)
    ensures
        r < 0 ==> bytes_lt(a@, b@),
        r > 0 ==> bytes_lt(b@, a@),
        r == 0 <==> a@ == b@,
{
    let n = a.len();
    let m = b.len();
    let mut i: usize = 0;
    while i < n && i < m
        invariant
            n == a@.len(),
            m == b@.len(),
            i <= n,
            i <= m,
            a@.take(i as int) == b@.take(i as int),
        decreases n - i,
    {
        if a[i] < b[i] {
            assert(bytes_lt_at(a@, b@, i as int));
            return -1;
        }
        if a[i] > b[i] {
            assert(bytes_lt_at(b@, a@, i as int));
            return 1;
        }
        assert(a@.take(i + 1) =~= a@.take(i as int).push(a@[i as int]));
        assert(b@.take(i + 1) =~= b@.take(i as int).push(b@[i as int]));
        i = i + 1;
    }
    if n < m {
        assert(a@.take(n as int) =~= a@);
        assert(bytes_lt_at(a@, b@, n as int));
        assert(a@ != b@);
        -1
    } else if m < n {
        assert(b@.take(m as int) =~= b@);
        assert(bytes_lt_at(b@, a@, m as int));
        assert(a@ != b@);
        1
    } else {
        assert(a@ =~= a@.take(n as int));
        assert(b@ =~= b@.take(m as int));
        0
    }
}

} // verus!
