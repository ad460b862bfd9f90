use vstd::prelude::*;

verus! {

/// Length above which the kernel splits its arrays in two.
pub const SPLIT_THRESHOLD: usize = 10000;

/// Why the kernel refused to run.
#[derive(Debug, Clone, Copy, PartialEq, Eq, Structural)]
pub enum TriadError {
    /// `b` or `c` is not as long as `a`.
    ShapeMismatch,
}

/// Holds when each element of `a` is what `op` returns on the elements of
/// `b` and `c` at the same index.
pub open spec fn triad_holds<T, F: Fn(&T, &T) -> T>(a: Seq<T>, b: Seq<T>, c: Seq<T>, op: F) -> bool {
    &&& a.len() == b.len()
    &&& a.len() == c.len()
    &&& forall|i: int| 0 <= i < a.len() ==> op.ensures((&b[i], &c[i]), #[trigger] a[i])
}

/// Sets `a[i]` to `op(&b[i], &c[i])` for every index, splitting the work in
/// two halves that run in parallel while the arrays are longer than
/// `SPLIT_THRESHOLD`. With `op` as `|x, y| x + s * y` this is the triad
/// `a = b + s * c`. Arrays of unequal length are refused and `a` is left as it
/// was.
pub fn stream_triad<T, F>(a: &mut [T], b: &[T], c: &[T], op: &F) -> (r: Result<(), TriadError>)
    where
        T: Send + Sync,
        F: Fn(&T, &T) -> T + Sync,
    requires
        forall|x: &T, y: &T| op.requires((x, y)),
    ensures
        r is Ok <==> (b@.len() == old(a)@.len() && c@.len() == old(a)@.len()),
        r is Ok ==> triad_holds(final(a)@, b@, c@, *op),
        r is Err ==> r == Err::<(), TriadError>(TriadError::ShapeMismatch) && final(a)@ == old(a)@,
        old(a)@.len() == 0 && b@.len() == 0 && c@.len() == 0 ==> r is Ok && final(a)@ == old(a)@,
{
    if b.len() != a.len() || c.len() != a.len() {
        return Err(TriadError::ShapeMismatch);
    }
    triad_rec(a, b, c, op);
    proof {
        if old(a)@.len() == 0 {
            assert(final(a)@ =~= old(a)@);
        }
    }
    Ok(())
}

/// The kernel on arrays of one length: halves run through `join_halves`
/// while longer than `SPLIT_THRESHOLD`, a single pass below it. Each half is
/// shorter than the whole, since a split only happens for at least two
/// elements.
fn triad_rec<T, F>(a: &mut [T], b: &[T], c: &[T], op: &F)
    where
        T: Send + Sync,
        F: Fn(&T, &T) -> T + Sync,
    requires
        old(a)@.len() == b@.len(),
        old(a)@.len() == c@.len(),
        forall|x: &T, y: &T| op.requires((x, y)),
    ensures
        triad_holds(final(a)@, b@, c@, *op),
{
    let m = a.len();
    if m > SPLIT_THRESHOLD {
        let mid = m / 2;
        let (a0, a1) = a.split_at_mut(mid);
        let (b0, b1) = b.split_at(mid);
        let (c0, c1) = c.split_at(mid);
        join_halves(a0, b0, c0, a1, b1, c1, op);
    } else {
        let mut i: usize = 0;
        while i < m
            invariant
                a@.len() == m,
                m == b@.len(),
                m == c@.len(),
                i <= m,
                forall|x: &T, y: &T| op.requires((x, y)),
                forall|j: int| 0 <= j < i ==> op.ensures((&b@[j], &c@[j]), #[trigger] a@[j]),
            decreases m - i,
        {
            let v = op(&b[i], &c[i]);
            a[i] = v;
            i += 1;
        }
    }
}


/// Relies on rayon::join: it runs both closures, each of which applies the
/// verified `triad_rec` to one half, and returns once both have returned.
#[verifier::external_body]
fn join_halves<T, F>(a0: &mut [T], b0: &[T], c0: &[T], a1: &mut [T], b1: &[T], c1: &[T], op: &F)
    where
        T: Send + Sync,
        F: Fn(&T, &T) -> T + Sync,
    requires
        old(a0)@.len() == b0@.len(),
        old(a0)@.len() == c0@.len(),
        old(a1)@.len() == b1@.len(),
        old(a1)@.len() == c1@.len(),
        forall|x: &T, y: &T| op.requires((x, y)),
    ensures
        triad_holds(final(a0)@, b0@, c0@, *op),
        triad_holds(final(a1)@, b1@, c1@, *op),
{
    rayon::join(|| triad_rec(a0, b0, c0, op), || triad_rec(a1, b1, c1, op));
}

} // verus!
