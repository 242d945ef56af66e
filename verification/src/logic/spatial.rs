//! Integer cell buckets behind the 2-D spatial grid.
//!
//! Each object is filed under the `(x, z)` cell that its position falls in;
//! a radius query walks the square of cells around the query cell and hands
//! back every index filed there. Turning world coordinates into cells is the
//! caller's business.

use std::collections::HashMap;
use vstd::prelude::*;

verus! {

broadcast use vstd::std_specs::hash::group_hash_axioms;

/// The one `i64` under which cell `(x, z)` is filed.
pub open spec fn cell_code_spec(x: i32, z: i32) -> int {
    x as int * 0x1_0000_0000 + (z as int + 0x8000_0000)
}

fn cell_code(x: i32, z: i32) -> (c: i64)
    ensures
        c == cell_code_spec(x, z),
{
    (x as i64) * 4294967296 + (z as i64 + 2147483648)
}

/// Distinct cells are filed under distinct codes.
proof fn lemma_cell_code_injective(x1: i32, z1: i32, x2: i32, z2: i32)
    requires
        cell_code_spec(x1, z1) == cell_code_spec(x2, z2),
    ensures
        x1 == x2,
        z1 == z2,
{
    let d = x1 as int - x2 as int;
    assert(d * 0x1_0000_0000 == z2 as int - z1 as int);
    if d > 0 {
        assert(d * 0x1_0000_0000 >= 0x1_0000_0000) by (nonlinear_arith)
            requires
                d > 0,
        ;
    } else if d < 0 {
        assert(d * 0x1_0000_0000 <= -0x1_0000_0000) by (nonlinear_arith)
            requires
                d < 0,
        ;
    }
}

/// The indices below `n` whose cell is `cell`, in increasing order.
pub open spec fn bucket(cells: Seq<(i32, i32)>, cell: (i32, i32), n: nat) -> Seq<usize>
    decreases n,
{
    if n == 0 {
        Seq::empty()
    } else {
        let prev = bucket(cells, cell, (n - 1) as nat);
        if cells[n - 1] == cell {
            prev.push((n - 1) as usize)
        } else {
            prev
        }
    }
}

/// What a map of buckets holds under `code` (nothing when it has no entry).
pub open spec fn filed_under(m: Map<i64, Vec<usize>>, code: int) -> Seq<usize> {
    if m.contains_key(code as i64) {
        m[code as i64]@
    } else {
        Seq::empty()
    }
}

/// Whether `cell` lies in the square of `steps` cells around `(base_x, base_z)`.
pub open spec fn in_square(cell: (i32, i32), base_x: i32, base_z: i32, steps: i32) -> bool {
    &&& base_x - steps <= cell.0 <= base_x + steps
    &&& base_z - steps <= cell.1 <= base_z + steps
}

/// A bucket holds exactly the indices below `n` filed under its cell, each once.
proof fn lemma_bucket_members(cells: Seq<(i32, i32)>, cell: (i32, i32), n: nat)
    requires
        n <= cells.len(),
        n <= usize::MAX + 1,
    ensures
        bucket(cells, cell, n).no_duplicates(),
        forall|j: usize| #[trigger]
            bucket(cells, cell, n).contains(j) <==> (j < n && cells[j as int] == cell),
    decreases n,
{
    if n > 0 {
        let prev = bucket(cells, cell, (n - 1) as nat);
        lemma_bucket_members(cells, cell, (n - 1) as nat);
        if cells[n - 1] == cell {
            let last = (n - 1) as usize;
            assert(prev.push(last).no_duplicates()) by {
                assert forall|a: int, b: int|
                    0 <= a < b < prev.push(last).len() implies prev.push(last)[a] != prev.push(
                        last,
                    )[b] by {
                    if b == prev.len() {
                        assert(prev.contains(prev[a]));
                    }
                }
            }
            assert forall|j: usize| #[trigger]
                prev.push(last).contains(j) <==> (j < n && cells[j as int] == cell) by {
                if j == last {
                    assert(prev.push(last)[prev.len() as int] == j);
                } else if prev.push(last).contains(j) {
                    let k = choose|k: int| 0 <= k < prev.push(last).len() && prev.push(last)[k] == j;
                    assert(prev.contains(prev[k]));
                } else if j < n && cells[j as int] == cell {
                    assert(prev.contains(j));
                    let k = choose|k: int| 0 <= k < prev.len() && prev[k] == j;
                    assert(prev.push(last)[k] == j);
                }
            }
        }
    }
}

/// Object indices bucketed by integer cell.
pub struct CellGrid {
    cells: HashMap<i64, Vec<usize>>,
    filed: Ghost<Seq<(i32, i32)>>,
    count: usize,
}

impl View for CellGrid {
    /// The cell of each object, by index.
    type V = Seq<(i32, i32)>;

    closed spec fn view(&self) -> Seq<(i32, i32)> {
        self.filed@
    }
}

impl CellGrid {
    #[verifier::type_invariant]
    spec fn inv(self) -> bool {
        &&& self.count == self.filed@.len()
        &&& forall|x: i32, z: i32| #[trigger]
            bucket(self.filed@, (x, z), self.count as nat) == filed_under(
                self.cells@,
                cell_code_spec(x, z),
            )
    }

    /// Files object `i` under `cells[i]`, for every `i`.
    pub fn build(cells: &Vec<(i32, i32)>) -> (g: Self)
        ensures
            g@ == cells@,
    {
        let mut map: HashMap<i64, Vec<usize>> = HashMap::new();
        let mut i: usize = 0;
        while i < cells.len()
            invariant
                i <= cells.len(),
                forall|x: i32, z: i32| #[trigger]
                    bucket(cells@, (x, z), i as nat) == filed_under(map@, cell_code_spec(x, z)),
            decreases cells.len() - i,
        {
            let (cx, cz) = cells[i];
            let code = cell_code(cx, cz);
            let ghost before = map@;
            let mut members: Vec<usize> = match map.remove(&code) {
                Some(v) => v,
                None => Vec::new(),
            };
            assert(members@ == filed_under(before, cell_code_spec(cx, cz)));
            members.push(i);
            map.insert(code, members);
            proof {
                assert forall|x: i32, z: i32| #[trigger]
                    bucket(cells@, (x, z), (i + 1) as nat) == filed_under(
                        map@,
                        cell_code_spec(x, z),
                    ) by {
                    assert(bucket(cells@, (x, z), i as nat) == filed_under(
                        before,
                        cell_code_spec(x, z),
                    ));
                    if (x, z) != (cx, cz) && cell_code_spec(x, z) == cell_code_spec(cx, cz) {
                        lemma_cell_code_injective(x, z, cx, cz);
                    }
                }
            }
            i = i + 1;
        }
        CellGrid { cells: map, filed: Ghost(cells@), count: i }
    }

    /// Indices of every object whose cell lies in the square of `steps`
    /// cells around `(base_x, base_z)`, each once (none when `steps` is
    /// negative).
    pub fn query_square(&self, base_x: i32, base_z: i32, steps: i32) -> (r: Vec<usize>)
        ensures
            r@.no_duplicates(),
            forall|j: usize| #[trigger]
                r@.contains(j) <==> (j < self@.len() && in_square(
                    self@[j as int],
                    base_x,
                    base_z,
                    steps,
                )),
    {
        proof {
            use_type_invariant(self);
        }
        let mut result: Vec<usize> = Vec::new();
        if steps < 0 {
            return result;
        }
        let ghost keys = self.filed@;
        let ghost n = self.count as nat;
        let s: i64 = steps as i64;
        let mut dx: i64 = -s;
        while dx <= s
            invariant
                self.inv(),
                keys == self.filed@,
                n == self.count,
                s == steps,
                steps >= 0,
                -s <= dx <= s + 1,
                result@.no_duplicates(),
                forall|j: usize| #[trigger]
                    result@.contains(j) <==> (j < n && in_square(keys[j as int], base_x, base_z, steps)
                        && keys[j as int].0 - base_x < dx),
            decreases s + 1 - dx,
        {
            let mut dz: i64 = -s;
            while dz <= s
                invariant
                    self.inv(),
                    keys == self.filed@,
                    n == self.count,
                    s == steps,
                    steps >= 0,
                    -s <= dx <= s,
                    -s <= dz <= s + 1,
                    result@.no_duplicates(),
                    forall|j: usize| #[trigger]
                        result@.contains(j) <==> (j < n && in_square(
                            keys[j as int],
                            base_x,
                            base_z,
                            steps,
                        ) && (keys[j as int].0 - base_x < dx || (keys[j as int].0 - base_x == dx
                            && keys[j as int].1 - base_z < dz))),
                decreases s + 1 - dz,
            {
                let cx: i64 = base_x as i64 + dx;
                let cz: i64 = base_z as i64 + dz;
                if i32::MIN as i64 <= cx && cx <= i32::MAX as i64 && i32::MIN as i64 <= cz && cz
                    <= i32::MAX as i64 {
                    let x: i32 = cx as i32;
                    let z: i32 = cz as i32;
                    let code = cell_code(x, z);
                    match self.cells.get(&code) {
                        Some(members) => {
                            let ghost before = result@;
                            proof {
                                assert(bucket(keys, (x, z), n) == filed_under(
                                    self.cells@,
                                    cell_code_spec(x, z),
                                ));
                                lemma_bucket_members(keys, (x, z), n);
                            }
                            let mut k: usize = 0;
                            while k < members.len()
                                invariant
                                    members@ == bucket(keys, (x, z), n),
                                    k <= members@.len(),
                                    result@ == before + members@.take(k as int),
                                decreases members.len() - k,
                            {
                                result.push(members[k]);
                                k = k + 1;
                                assert(before + members@.take(k as int) == (before
                                    + members@.take((k - 1) as int)).push(members@[k - 1]));
                            }
                            proof {
                                assert(members@.take(k as int) == members@);
                                assert forall|j: usize| #[trigger]
                                    result@.contains(j) <==> (j < n && in_square(
                                        keys[j as int],
                                        base_x,
                                        base_z,
                                        steps,
                                    ) && (keys[j as int].0 - base_x < dx || (keys[j as int].0
                                        - base_x == dx && keys[j as int].1 - base_z < dz + 1))) by {
                                    if before.contains(j) {
                                        let q = choose|q: int| 0 <= q < before.len() && before[q] == j;
                                        assert(result@[q] == j);
                                    } else if members@.contains(j) {
                                        let q = choose|q: int|
                                            0 <= q < members@.len() && members@[q] == j;
                                        assert(result@[before.len() + q] == j);
                                    }
                                    if result@.contains(j) {
                                        let q = choose|q: int| 0 <= q < result@.len() && result@[q] == j;
                                        if q < before.len() {
                                            assert(before.contains(before[q]));
                                        } else {
                                            assert(members@.contains(members@[q - before.len()]));
                                        }
                                    }
                                }
                                assert forall|a: int, b: int|
                                    0 <= a < b < result@.len() implies result@[a] != result@[b] by {
                                    if b < before.len() {
                                    } else if a >= before.len() {
                                        assert(members@[a - before.len()] == result@[a]);
                                        assert(members@[b - before.len()] == result@[b]);
                                    } else {
                                        assert(before.contains(result@[a]));
                                        assert(members@.contains(members@[b - before.len()]));
                                    }
                                }
                            }
                        },
                        None => {
                            proof {
                                assert(bucket(keys, (x, z), n) == filed_under(
                                    self.cells@,
                                    cell_code_spec(x, z),
                                ));
                                lemma_bucket_members(keys, (x, z), n);
                                assert forall|j: usize|
                                    j < n && keys[j as int] == (x, z) implies false by {
                                    assert(bucket(keys, (x, z), n).contains(j));
                                }
                            }
                        },
                    }
                }
                dz = dz + 1;
            }
            dx = dx + 1;
        }
        result
    }

    /// How many objects were filed.
    pub fn len(&self) -> (n: usize)
        ensures
            n == self@.len(),
    {
        proof {
            use_type_invariant(self);
        }
        self.count
    }

    pub fn is_empty(&self) -> (b: bool)
        ensures
            b == (self@.len() == 0),
    {
        proof {
            use_type_invariant(self);
        }
        self.count == 0
    }
}

impl Clone for CellGrid {
    fn clone(&self) -> (c: Self)
        ensures
            c@ == self@,
    {
        proof {
            use_type_invariant(self);
        }
        CellGrid { cells: self.cells.clone(), filed: self.filed, count: self.count }
    }
}

} // verus!
