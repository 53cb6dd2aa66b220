//! The lattice of a gradient noise field: three shuffled index tables and the way they pick
//! a gradient for each corner of a lattice cell.

use vstd::prelude::*;
use crate::utils::random_range_int;

verus! {

/// The number of gradients, and the length of each index table.
pub const POINT_COUNT: usize = 256;

/// `s` with the entries at `i` and `j` exchanged.
pub open spec fn exchanged(s: Seq<usize>, i: int, j: int) -> Seq<usize> {
    s.update(i, s[j]).update(j, s[i])
}

/// Whether `s` holds each of `0 .. POINT_COUNT` exactly once.
pub open spec fn is_index_table(s: Seq<usize>) -> bool {
    &&& s.len() == POINT_COUNT
    &&& forall|i: int| 0 <= i < s.len() ==> #[trigger] s[i] < POINT_COUNT
    &&& forall|i: int, j: int| 0 <= i < j < s.len() ==> s[i] != s[j]
}

/// The place in an index table that the lattice coordinate `i` reads: `i` modulo the
/// table's length, so that the tables repeat in both directions.
pub open spec fn wrapped(i: int) -> int {
    i % (POINT_COUNT as int)
}

/// Exchanging two entries keeps what a sequence holds.
pub proof fn lemma_exchange_keeps_contents(s: Seq<usize>, i: int, j: int)
    requires
        0 <= i < s.len(),
        0 <= j < s.len(),
    ensures
        exchanged(s, i, j).to_multiset() == s.to_multiset(),
        exchanged(s, i, j).len() == s.len(),
{
    broadcast use vstd::multiset::group_multiset_axioms;

    let mid = s.update(i, s[j]);
    vstd::seq_lib::to_multiset_update(s, i, s[j]);
    vstd::seq_lib::to_multiset_update(mid, j, s[i]);
    s.to_multiset_ensures();
    assert(s.to_multiset().count(s[i]) > 0);
    assert(s.to_multiset().count(s[j]) > 0);
    assert(exchanged(s, i, j).to_multiset() =~= s.to_multiset());
}

/// A sequence that holds what the identity table holds is an index table.
pub proof fn lemma_rearranged_identity(s: Seq<usize>)
    requires
        s.to_multiset() == Seq::new(POINT_COUNT as nat, |i: int| i as usize).to_multiset(),
    ensures
        is_index_table(s),
{
    broadcast use vstd::multiset::group_multiset_axioms;

    let id = Seq::new(POINT_COUNT as nat, |i: int| i as usize);
    assert(id.no_duplicates());
    id.lemma_multiset_has_no_duplicates();
    s.lemma_multiset_has_no_duplicates_conv();
    s.to_multiset_ensures();
    id.to_multiset_ensures();
    assert(s.len() == s.to_multiset().len());
    assert forall|i: int| 0 <= i < s.len() implies #[trigger] s[i] < POINT_COUNT by {
        assert(s.to_multiset().count(s[i]) > 0);
        assert(id.contains(s[i]));
    }
}

/// Exchanges the entries at `i` and `j`.
pub fn exchange(p: &mut [usize; POINT_COUNT], i: usize, j: usize)
    requires
        i < POINT_COUNT,
        j < POINT_COUNT,
    ensures
        final(p)@ == exchanged(old(p)@, i as int, j as int),
{
    let a: usize = p[i];
    let b: usize = p[j];
    p[i] = b;
    p[j] = a;
    proof {
        assert(p@ =~= exchanged(old(p)@, i as int, j as int));
    }
}

/// The table `p` after the steps of a shuffle of its first `n` entries from the last entry
/// down to the entry at `down_to`: the step at entry `i` exchanges it with the entry at
/// `targets[i]`.
pub open spec fn shuffled(p: Seq<usize>, n: int, down_to: int, targets: Seq<int>) -> Seq<usize>
    decreases n - down_to,
{
    if down_to >= n {
        p
    } else {
        exchanged(shuffled(p, n, down_to + 1, targets), targets[down_to], down_to)
    }
}

/// Whether `targets` are draws that a shuffle of `n` entries can make: the draw for the
/// entry at `i` is one of the entries up to and including `i`.
pub open spec fn are_draws(targets: Seq<int>, n: int) -> bool {
    &&& targets.len() == n
    &&& forall|i: int| 1 <= i < n ==> 0 <= #[trigger] targets[i] <= i
}

/// The steps from `down_to` on use only the draws from `down_to` on.
pub proof fn lemma_shuffled_uses_later_draws(
    p: Seq<usize>,
    n: int,
    down_to: int,
    targets: Seq<int>,
    others: Seq<int>,
)
    requires
        forall|i: int| down_to <= i < n ==> targets[i] == others[i],
    ensures
        shuffled(p, n, down_to, targets) == shuffled(p, n, down_to, others),
    decreases n - down_to,
{
    if down_to < n {
        lemma_shuffled_uses_later_draws(p, n, down_to + 1, targets, others);
    }
}

/// Shuffles the first `n` entries: from the last of them down to the second, each is
/// exchanged with an entry drawn uniformly from those up to and including itself.
///
/// Whatever is drawn, the table is afterwards what these exchanges make of it for some
/// draws; it holds what it held before, and the entries from `n` on have not moved.
pub fn permute(p: &mut [usize; POINT_COUNT], n: usize)
    requires
        n <= POINT_COUNT,
    ensures
        exists|targets: Seq<int>|
            are_draws(targets, n as int) && final(p)@ == shuffled(old(p)@, n as int, 1, targets),
        final(p)@.to_multiset() == old(p)@.to_multiset(),
        forall|j: int| n <= j < POINT_COUNT ==> final(p)@[j] == old(p)@[j],
{
    let ghost mut drawn: Seq<int> = Seq::new(n as nat, |i: int| 0int);
    let mut i: usize = n;
    while i > 1
        invariant
            i <= n <= POINT_COUNT,
            i == 0 ==> n == 0,
            drawn.len() == n,
            forall|k: int| i <= k < n ==> 0 <= #[trigger] drawn[k] <= k,
            forall|k: int| 0 <= k < i ==> #[trigger] drawn[k] == 0,
            p@ == shuffled(old(p)@, n as int, i as int, drawn),
            p@.to_multiset() == old(p)@.to_multiset(),
            forall|j: int| n <= j < POINT_COUNT ==> p@[j] == old(p)@[j],
        decreases i,
    {
        i = i - 1;
        let target: usize = random_range_int(0, i as i32) as usize;
        proof {
            lemma_exchange_keeps_contents(p@, target as int, i as int);
            let before = drawn;
            drawn = drawn.update(i as int, target as int);
            lemma_shuffled_uses_later_draws(old(p)@, n as int, i + 1, before, drawn);
        }
        exchange(p, target, i);
    }
    proof {
        if i == 0 {
            assert(shuffled(old(p)@, n as int, 0, drawn) == old(p)@);
            assert(shuffled(old(p)@, n as int, 1, drawn) == old(p)@);
        }
        assert(are_draws(drawn, n as int));
    }
}

/// Fills `p` with `0 .. POINT_COUNT` in order and shuffles all of it.
pub fn perlin_generate_perm(p: &mut [usize; POINT_COUNT])
    ensures
        is_index_table(final(p)@),
{
    let mut i: usize = 0;
    while i < POINT_COUNT
        invariant
            i <= POINT_COUNT,
            forall|j: int| 0 <= j < i ==> p@[j] == j,
        decreases POINT_COUNT - i,
    {
        p[i] = i;
        i = i + 1;
    }
    proof {
        assert(p@ =~= Seq::new(POINT_COUNT as nat, |i: int| i as usize));
    }
    permute(p, POINT_COUNT);
    proof {
        lemma_rearranged_identity(p@);
    }
}

/// The three index tables of a noise field, one for each axis.
pub struct Perlin {
    perm_x: [usize; POINT_COUNT],
    perm_y: [usize; POINT_COUNT],
    perm_z: [usize; POINT_COUNT],
}

impl Perlin {
    /// The table of the `x` axis.
    pub closed spec fn table_x(&self) -> Seq<usize> {
        self.perm_x@
    }

    /// The table of the `y` axis.
    pub closed spec fn table_y(&self) -> Seq<usize> {
        self.perm_y@
    }

    /// The table of the `z` axis.
    pub closed spec fn table_z(&self) -> Seq<usize> {
        self.perm_z@
    }

    /// Each table holds each index exactly once.
    pub open spec fn well_formed(&self) -> bool {
        &&& is_index_table(self.table_x())
        &&& is_index_table(self.table_y())
        &&& is_index_table(self.table_z())
    }

    /// The index of the gradient at the lattice point `(i, j, k)`: the three table entries
    /// that the coordinates read, combined bit by bit with exclusive or.
    pub open spec fn gradient_at(&self, i: int, j: int, k: int) -> usize {
        self.table_x()[wrapped(i)] ^ self.table_y()[wrapped(j)] ^ self.table_z()[wrapped(k)]
    }

    /// A field with freshly shuffled tables.
    pub fn new() -> (field: Self)
        ensures
            field.well_formed(),
    {
        let mut field = Perlin {
            perm_x: [0usize; 256],
            perm_y: [0usize; 256],
            perm_z: [0usize; 256],
        };
        perlin_generate_perm(&mut field.perm_x);
        perlin_generate_perm(&mut field.perm_y);
        perlin_generate_perm(&mut field.perm_z);
        field
    }

    /// A field with the given tables, or `None` where one of them is no index table.
    pub fn from_tables(
        perm_x: [usize; POINT_COUNT],
        perm_y: [usize; POINT_COUNT],
        perm_z: [usize; POINT_COUNT],
    ) -> (field: Option<Self>)
        ensures
            field is Some <==> is_index_table(perm_x@) && is_index_table(perm_y@)
                && is_index_table(perm_z@),
            field matches Some(f) ==> f.table_x() == perm_x@ && f.table_y() == perm_y@
                && f.table_z() == perm_z@,
    {
        if check_index_table(&perm_x) && check_index_table(&perm_y) && check_index_table(&perm_z) {
            Some(Perlin { perm_x, perm_y, perm_z })
        } else {
            None
        }
    }

    /// The index of the gradient at the lattice point `(i, j, k)`.
    pub fn gradient_index(&self, i: i64, j: i64, k: i64) -> (g: usize)
        requires
            self.well_formed(),
        ensures
            g == self.gradient_at(i as int, j as int, k as int),
            g < POINT_COUNT,
    {
        let a: usize = self.perm_x[table_place(i)];
        let b: usize = self.perm_y[table_place(j)];
        let c: usize = self.perm_z[table_place(k)];
        proof {
            assert(a < 256 && b < 256 && c < 256 ==> (a ^ b ^ c) < 256) by (bit_vector);
        }
        a ^ b ^ c
    }

    /// The gradient indices of the eight corners of the lattice cell whose lowest corner is
    /// `(i, j, k)`: the entry at `[di][dj][dk]` belongs to the corner
    /// `(i + di, j + dj, k + dk)`.
    pub fn corners(&self, i: i64, j: i64, k: i64) -> (c: [[[usize; 2]; 2]; 2])
        requires
            self.well_formed(),
        ensures
            forall|di: int, dj: int, dk: int|
                0 <= di < 2 && 0 <= dj < 2 && 0 <= dk < 2 ==> #[trigger] c@[di]@[dj]@[dk]
                    == self.gradient_at(i + di, j + dj, k + dk),
            forall|di: int, dj: int, dk: int|
                0 <= di < 2 && 0 <= dj < 2 && 0 <= dk < 2 ==> #[trigger] c@[di]@[dj]@[dk]
                    < POINT_COUNT,
    {
        let i1: i64 = i.wrapping_add(1);
        let j1: i64 = j.wrapping_add(1);
        let k1: i64 = k.wrapping_add(1);
        proof {
            lemma_wrapped_successor(i);
            lemma_wrapped_successor(j);
            lemma_wrapped_successor(k);
        }
        [
            [
                [self.gradient_index(i, j, k), self.gradient_index(i, j, k1)],
                [self.gradient_index(i, j1, k), self.gradient_index(i, j1, k1)],
            ],
            [
                [self.gradient_index(i1, j, k), self.gradient_index(i1, j, k1)],
                [self.gradient_index(i1, j1, k), self.gradient_index(i1, j1, k1)],
            ],
        ]
    }
}

/// The place in an index table that the lattice coordinate `i` reads.
pub fn table_place(i: i64) -> (at: usize)
    ensures
        at == wrapped(i as int),
        at < POINT_COUNT,
{
    let low: i64 = i & 255;
    proof {
        assert(0 <= (i & 255) < 256) by (bit_vector);
        assert((i & 255) == i - 256 * ((i - (i & 255)) / 256)) by (bit_vector);
        lemma_low_bits_are_remainder(i as int, low as int);
    }
    low as usize
}

proof fn lemma_low_bits_are_remainder(i: int, low: int)
    requires
        0 <= low < 256,
        (i - low) % 256 == 0,
    ensures
        low == i % 256,
{
    vstd::arithmetic::div_mod::lemma_fundamental_div_mod_converse(i, 256, (i - low) / 256, low);
}

/// Stepping to the next lattice point wraps as the tables do, also at the end of `i64`.
proof fn lemma_wrapped_successor(i: i64)
    ensures
        wrapped(i.wrapping_add(1) as int) == wrapped(i + 1),
{
    if i == i64::MAX {
        assert(i.wrapping_add(1) == i64::MIN);
        assert(i64::MIN as int == 256 * (-0x80_0000_0000_0000) + 0);
        vstd::arithmetic::div_mod::lemma_fundamental_div_mod_converse(
            i64::MIN as int,
            256,
            -0x80_0000_0000_0000,
            0,
        );
    }
}

/// Whether `p` holds each of `0 .. POINT_COUNT` exactly once.
pub fn check_index_table(p: &[usize; POINT_COUNT]) -> (ok: bool)
    ensures
        ok == is_index_table(p@),
{
    let mut seen: [bool; 256] = [false; 256];
    let mut i: usize = 0;
    while i < POINT_COUNT
        invariant
            i <= POINT_COUNT,
            forall|j: int| 0 <= j < i ==> #[trigger] p@[j] < POINT_COUNT,
            forall|a: int, b: int| 0 <= a < b < i ==> p@[a] != p@[b],
            forall|v: int| 0 <= v < 256 ==> (#[trigger] seen@[v] <==> exists|j: int| 0 <= j < i && p@[j] == v),
        decreases POINT_COUNT - i,
    {
        let v: usize = p[i];
        if v >= POINT_COUNT {
            return false;
        }
        if seen[v] {
            proof {
                let j = choose|j: int| 0 <= j < i && p@[j] == v;
                assert(p@[j] == p@[i as int]);
            }
            return false;
        }
        seen[v] = true;
        proof {
            assert forall|w: int| 0 <= w < 256 implies (#[trigger] seen@[w] <==> exists|j: int|
                0 <= j < i + 1 && p@[j] == w) by {
                if w == v {
                    assert(p@[i as int] == w);
                } else {
                    if seen@[w] {
                        let j = choose|j: int| 0 <= j < i && p@[j] == w;
                        assert(0 <= j < i + 1 && p@[j] == w);
                    }
                }
            }
        }
        i = i + 1;
    }
    true
}

impl Default for Perlin {
    fn default() -> (field: Self)
        ensures
            field.well_formed(),
    {
        Perlin::new()
    }
}

} // verus!
