//! The parts of the shared pipeline that decide rather than compute: the
//! columns a module appends, the refusal to clobber an existing column, and
//! the reduction of the input rows to unique locations together with the map
//! that joins the per-location results back onto every row.
//!
//! Rows are de-duplicated on integer keys (the rounded coordinates scaled to
//! integers), so the join never compares floating-point values.
use std::collections::HashMap;
use vstd::prelude::*;

use crate::text::{join, join_chars, same_chars, to_text};
use vstd::string::StringExecFns;

verus! {

broadcast use {vstd::std_specs::hash::group_hash_axioms, vstd::seq_lib::group_filter_ensures};

/// The type of one appended column.
#[derive(Clone, Copy, Debug, PartialEq, Eq, Structural)]
pub enum OutputKind {
    Float,
    Text,
    Bool,
}

/// One appended column's name and type.
#[derive(Clone, Debug)]
pub struct OutputSpec {
    pub name: String,
    pub kind: OutputKind,
}

/// The names of the appended columns.
pub open spec fn spec_names(specs: Seq<OutputSpec>) -> Seq<Seq<char>> {
    specs.map_values(|s: OutputSpec| s.name@)
}

/// The appended column names that the input already has, in column order.
pub open spec fn clashing_names(columns: Seq<Seq<char>>, specs: Seq<OutputSpec>) -> Seq<Seq<char>> {
    spec_names(specs).filter(|n: Seq<char>| columns.contains(n))
}

/// The error a clash raises when overwriting was not asked for.
pub open spec fn clash_message(clashes: Seq<Seq<char>>) -> Seq<char> {
    "the input already has output column(s) '"@ + join(clashes, "', '"@)
        + "'; pass --overwrite to replace them"@
}

/// Whether `name` is one of `columns`.
fn has_column(columns: &[String], name: &String) -> (r: bool)
    ensures
        r == columns@.map_values(|s: String| s@).contains(name@),
{
    let ghost cols = columns@.map_values(|s: String| s@);
    let mut i: usize = 0;
    while i < columns.len()
        invariant
            i <= columns.len(),
            cols == columns@.map_values(|s: String| s@),
            forall|k: int| 0 <= k < i ==> cols[k] != name@,
        decreases columns.len() - i,
    {
        if columns[i] == *name {
            assert(cols[i as int] == name@);
            return true;
        }
        i = i + 1;
    }
    false
}

/// Refuse to clobber an existing column unless asked. `columns` are the input
/// table's column names; the check runs before any enrichment so a clash fails
/// fast rather than after a long run.
pub fn check_clashes(columns: &[String], specs: &[OutputSpec], overwrite: bool) -> (r: Result<
    (),
    String,
>)
    ensures
        ({
            let clashes = clashing_names(columns@.map_values(|s: String| s@), specs@);
            match r {
                Ok(()) => overwrite || clashes.len() == 0,
                Err(msg) => !overwrite && clashes.len() > 0 && msg@ == clash_message(clashes),
            }
        }),
{
    let ghost cols = columns@.map_values(|s: String| s@);
    let ghost names = spec_names(specs@);
    let ghost pred = |n: Seq<char>| cols.contains(n);
    let mut clashes: Vec<Vec<char>> = Vec::new();
    let mut i: usize = 0;
    assert(names.take(0).filter(pred) =~= Seq::<Seq<char>>::empty()) by {
        reveal(Seq::filter);
    }
    while i < specs.len()
        invariant
            i <= specs.len(),
            cols == columns@.map_values(|s: String| s@),
            names == spec_names(specs@),
            pred == (|n: Seq<char>| cols.contains(n)),
            clashes@.map_values(|v: Vec<char>| v@) == names.take(i as int).filter(pred),
        decreases specs.len() - i,
    {
        let hit = has_column(columns, &specs[i].name);
        proof {
            assert(names[i as int] == specs@[i as int].name@);
            assert(names.take(i + 1) =~= names.take(i as int).push(names[i as int]));
            names.take(i as int).lemma_filter_push(names[i as int], pred);
        }
        let ghost before = clashes@;
        if hit {
            let name = crate::text::chars_of(specs[i].name.as_str());
            clashes.push(name);
            assert(clashes@.map_values(|v: Vec<char>| v@) =~= before.map_values(
                |v: Vec<char>| v@,
            ).push(names[i as int]));
        }
        i = i + 1;
    }
    assert(names.take(specs.len() as int) =~= names);
    if clashes.len() == 0 || overwrite {
        return Ok(());
    }
    let listed = join_chars(&clashes, crate::text::chars_of("', '").as_slice());
    let mut msg = String::from_str("the input already has output column(s) '");
    msg.append(to_text(listed.as_slice()).as_str());
    msg.append("'; pass --overwrite to replace them");
    Err(msg)
}

/// The input reduced to unique locations, with the map back to the rows.
pub struct Reduced {
    /// For each unique location, the first row that has it. These rows are in
    /// increasing order, so unique locations come in order of first appearance.
    pub first_row: Vec<usize>,
    /// For each row, the unique location it belongs to, or `None` where the row
    /// has no usable location.
    pub row_slot: Vec<Option<usize>>,
}

/// A row key packed into one integer: the first coordinate scaled by 2^64 plus
/// the second shifted into `0..2^64`. Distinct keys pack to distinct integers.
pub open spec fn packed(k: (i64, i64)) -> int {
    k.0 * 0x1_0000_0000_0000_0000 + (k.1 + 0x8000_0000_0000_0000)
}

proof fn lemma_packed_injective(a: (i64, i64), b: (i64, i64))
    requires
        packed(a) == packed(b),
    ensures
        a == b,
{
    let (a0, a1, b0, b1) = (a.0 as int, a.1 as int, b.0 as int, b.1 as int);
    assert(a0 == b0 && a1 == b1) by (nonlinear_arith)
        requires
            a0 * 0x1_0000_0000_0000_0000 + (a1 + 0x8000_0000_0000_0000) == b0
                * 0x1_0000_0000_0000_0000 + (b1 + 0x8000_0000_0000_0000),
            -0x8000_0000_0000_0000 <= a1 < 0x8000_0000_0000_0000,
            -0x8000_0000_0000_0000 <= b1 < 0x8000_0000_0000_0000,
    ;
}

fn pack_key(k: (i64, i64)) -> (p: i128)
    ensures
        p == packed(k),
{
    let hi = k.0 as i128;
    let lo = k.1 as i128;
    assert(-0x8000_0000_0000_0000 * 0x1_0000_0000_0000_0000 <= hi * 0x1_0000_0000_0000_0000
        <= 0x7fff_ffff_ffff_ffff * 0x1_0000_0000_0000_0000) by (nonlinear_arith)
        requires
            -0x8000_0000_0000_0000 <= hi <= 0x7fff_ffff_ffff_ffff,
    ;
    hi * 0x1_0000_0000_0000_0000i128 + (lo + 0x8000_0000_0000_0000i128)
}

/// `first_row` and `row_slot` are the reduction of `keys` to unique locations:
/// every row with a key is mapped to the unique location carrying the same key,
/// rows without one are mapped to nothing, and each unique location is listed
/// once, at the first row that has it, in order of first appearance.
pub open spec fn reduction_of(
    keys: Seq<Option<(i64, i64)>>,
    first_row: Seq<usize>,
    row_slot: Seq<Option<usize>>,
) -> bool {
    &&& row_slot.len() == keys.len()
    &&& forall|i: int| 0 <= i < keys.len() ==> (keys[i] is None <==> #[trigger] row_slot[i] is None)
    &&& forall|i: int|
        0 <= i < keys.len() && #[trigger] row_slot[i] is Some ==> {
            let u = row_slot[i]->0 as int;
            &&& u < first_row.len()
            &&& keys[first_row[u] as int] == keys[i]
        }
    &&& forall|u: int|
        0 <= u < first_row.len() ==> {
            &&& #[trigger] first_row[u] < keys.len()
            &&& row_slot[first_row[u] as int] == Some(u as usize)
            &&& forall|j: int| 0 <= j < first_row[u] ==> #[trigger] keys[j] != keys[first_row[u] as int]
        }
    &&& forall|u: int, v: int| 0 <= u < v < first_row.len() ==> first_row[u] < first_row[v]
}

/// Reduce the rows to unique locations. `keys[i]` is row `i`'s rounded
/// location scaled to integers, or `None` where the row has no usable
/// coordinate.
pub fn reduce_keys(keys: &[Option<(i64, i64)>]) -> (r: Reduced)
    ensures
        reduction_of(keys@, r.first_row@, r.row_slot@),
{
    let mut index: HashMap<i128, usize> = HashMap::new();
    let mut first_row: Vec<usize> = Vec::new();
    let mut row_slot: Vec<Option<usize>> = Vec::new();
    let mut i: usize = 0;
    while i < keys.len()
        invariant
            i <= keys.len(),
            row_slot.len() == i,
            first_row.len() <= i,
            forall|p: i128|
                #[trigger] index@.contains_key(p) ==> {
                    let u = index@[p] as int;
                    &&& u < first_row.len()
                    &&& keys@[first_row@[u] as int] is Some
                    &&& packed(keys@[first_row@[u] as int]->0) == p
                },
            forall|u: int|
                0 <= u < first_row.len() ==> {
                    &&& #[trigger] first_row@[u] < i
                    &&& keys@[first_row@[u] as int] is Some
                    &&& index@.contains_key(packed(keys@[first_row@[u] as int]->0) as i128)
                    &&& index@[packed(keys@[first_row@[u] as int]->0) as i128] == u as usize
                    &&& row_slot@[first_row@[u] as int] == Some(u as usize)
                    &&& forall|j: int|
                        0 <= j < first_row@[u] ==> #[trigger] keys@[j] != keys@[first_row@[u] as int]
                },
            forall|u: int, v: int| 0 <= u < v < first_row.len() ==> first_row@[u] < first_row@[v],
            forall|j: int|
                0 <= j < i ==> (#[trigger] keys@[j] matches Some(k) ==> index@.contains_key(
                    packed(k) as i128,
                )),
            forall|j: int| 0 <= j < i ==> (keys@[j] is None <==> #[trigger] row_slot@[j] is None),
            forall|j: int|
                0 <= j < i && #[trigger] row_slot@[j] is Some ==> {
                    let u = row_slot@[j]->0 as int;
                    &&& u < first_row.len()
                    &&& keys@[first_row@[u] as int] == keys@[j]
                },
        decreases keys.len() - i,
    {
        match keys[i] {
            None => {
                row_slot.push(None);
            },
            Some(k) => {
                let p = pack_key(k);
                match index.get(&p) {
                    Some(u) => {
                        let u = *u;
                        proof {
                            let f = first_row@[u as int] as int;
                            lemma_packed_injective(keys@[f]->0, k);
                        }
                        row_slot.push(Some(u));
                    },
                    None => {
                        let u = first_row.len();
                        proof {
                            assert forall|j: int| 0 <= j < i implies keys@[j] != keys@[i as int] by {
                                if keys@[j] == keys@[i as int] {
                                    assert(index@.contains_key(packed(k) as i128));
                                }
                            }
                        }
                        index.insert(p, u);
                        first_row.push(i);
                        row_slot.push(Some(u));
                    },
                }
            },
        }
        i = i + 1;
    }
    Reduced { first_row, row_slot }
}

/// Expand per-location results back to one value per row: a row mapped to a
/// location gets a clone of that location's result, a row without a location
/// gets nothing (a null in the output column).
pub fn gather<T: Clone>(results: &[T], row_slot: &[Option<usize>]) -> (r: Vec<Option<T>>)
    requires
        forall|i: int|
            0 <= i < row_slot.len() && #[trigger] row_slot@[i] is Some ==> row_slot@[i]->0
                < results.len(),
    ensures
        r.len() == row_slot.len(),
        forall|i: int|
            0 <= i < row_slot.len() ==> match #[trigger] row_slot@[i] {
                None => r@[i] is None,
                Some(u) => r@[i] matches Some(v) && vstd::pervasive::cloned(results@[u as int], v),
            },
{
    let mut out: Vec<Option<T>> = Vec::new();
    let mut i: usize = 0;
    while i < row_slot.len()
        invariant
            i <= row_slot.len(),
            out.len() == i,
            forall|k: int|
                0 <= k < row_slot.len() && #[trigger] row_slot@[k] is Some ==> row_slot@[k]->0
                    < results.len(),
            forall|k: int|
                0 <= k < i ==> match #[trigger] row_slot@[k] {
                    None => out@[k] is None,
                    Some(u) => out@[k] matches Some(v) && vstd::pervasive::cloned(
                        results@[u as int],
                        v,
                    ),
                },
        decreases row_slot.len() - i,
    {
        match row_slot[i] {
            None => out.push(None),
            Some(u) => {
                let v = results[u].clone();
                out.push(Some(v));
            },
        }
        i = i + 1;
    }
    out
}

/// Rows that share a key share a location, and rows whose keys differ do not:
/// the join hands every row exactly the result computed for its own key.
pub proof fn lemma_same_key_same_location(
    keys: Seq<Option<(i64, i64)>>,
    first_row: Seq<usize>,
    row_slot: Seq<Option<usize>>,
    i: int,
    j: int,
)
    requires
        reduction_of(keys, first_row, row_slot),
        0 <= i < keys.len(),
        0 <= j < keys.len(),
        keys[i] is Some,
        keys[j] is Some,
    ensures
        (row_slot[i] == row_slot[j]) <==> (keys[i] == keys[j]),
{
    assert(row_slot[i] is Some);
    assert(row_slot[j] is Some);
    let u = row_slot[i]->0 as int;
    let v = row_slot[j]->0 as int;
    if keys[i] == keys[j] && u != v {
        if u < v {
            assert(first_row[u] < first_row[v]);
            assert(keys[first_row[u] as int] != keys[first_row[v] as int]);
        } else {
            assert(first_row[v] < first_row[u]);
            assert(keys[first_row[v] as int] != keys[first_row[u] as int]);
        }
    }
}

/// The unique locations are unique: no two of them carry the same key, and
/// every one of them carries a key.
pub proof fn lemma_unique_locations_are_distinct(
    keys: Seq<Option<(i64, i64)>>,
    first_row: Seq<usize>,
    row_slot: Seq<Option<usize>>,
    u: int,
    v: int,
)
    requires
        reduction_of(keys, first_row, row_slot),
        0 <= u < v < first_row.len(),
    ensures
        keys[first_row[u] as int] != keys[first_row[v] as int],
        keys[first_row[u] as int] is Some,
{
    assert(first_row[u] < first_row[v]);
    assert(row_slot[first_row[u] as int] == Some(u as usize));
}

} // verus!
