//! What tables hold, as mathematics: columns of cells, masks over their rows, and what the
//! steps of preparing a table make of them.
use vstd::prelude::*;
use vstd::utf8::encode_utf8;

use crate::ieee;

verus! {

/// A column: its name, the number of its type, and its cells from top to bottom. A cell is
/// `None` where it is null, and else the number that stands for its value.
pub type ColumnView = (Seq<char>, int, Seq<Option<int>>);

/// The type number of `Float64`. Every other type has another number.
pub open spec fn float_kind() -> int {
    0
}

/// The type number of `String`.
pub open spec fn text_kind() -> int {
    1
}

/// The type number of lists of `Float64`.
pub open spec fn list_kind() -> int {
    2
}

/// The type number of `Float32`.
pub open spec fn single_kind() -> int {
    3
}

/// The number that stands for a string: its characters, counted from one, as digits.
pub open spec fn text_code(text: Seq<char>) -> int
    decreases text.len(),
{
    if text.len() == 0 {
        0
    } else {
        text_code(text.drop_last()) * 0x11_0000 + (text.last() as int + 1)
    }
}

/// The number that stands for a list of `Float64` without nulls: the numbers of its items,
/// counted from one, as digits.
pub open spec fn list_code(items: Seq<int>) -> int
    decreases items.len(),
{
    if items.len() == 0 {
        0
    } else {
        list_code(items.drop_last()) * 0x1_0000_0000_0000_0000 + (items.last() + 1)
    }
}

/// The number that stands for a `Float64` value: its bits, but the same ones for every NaN and
/// for both zeros. Which NaN, and which zero, a column holds is left unsaid: the least of two
/// zeros may be either of them.
pub open spec fn float_code(bits: u64) -> int {
    if ieee::nan(bits) {
        ieee::NAN as int
    } else if ieee::magnitude(bits) == 0 {
        0
    } else {
        bits as int
    }
}

/// The place of a `Float64` value, by the number that stands for it, in the order of columns:
/// NaN is the greatest.
pub open spec fn code_rank(code: int) -> int {
    if code == float_code(ieee::NAN) {
        ieee::SIGN as int
    } else if code < ieee::SIGN {
        code
    } else {
        ieee::SIGN - code
    }
}

/// The numbers that stand for `Float64` values.
pub open spec fn float_codes(bits: Seq<u64>) -> Seq<int> {
    Seq::new(bits.len(), |i: int| float_code(bits[i]))
}

/// Whether a column can have so many rows: polars counts them with 32 bits, and needs the last
/// number for itself.
pub open spec fn countable(rows: nat) -> bool {
    rows < u32::MAX
}

/// Whether a column of strings can hold a text: its UTF-8 form has less than four gibibytes.
pub open spec fn storable(text: Seq<char>) -> bool {
    encode_utf8(text).len() <= u32::MAX
}

/// The cells of a column of strings.
pub open spec fn text_cells(texts: Seq<Seq<char>>) -> Seq<Option<int>> {
    Seq::new(texts.len(), |i: int| Some(text_code(texts[i])))
}

/// The cells of a column of `Float64` without nulls.
pub open spec fn float_cells(bits: Seq<u64>) -> Seq<Option<int>> {
    Seq::new(bits.len(), |i: int| Some(float_code(bits[i])))
}

/// Whether a column holds a null.
pub open spec fn has_null(cells: Seq<Option<int>>) -> bool {
    exists|r: int| 0 <= r < cells.len() && #[trigger] cells[r] is None
}

/// Whether one of the columns holds a null.
pub open spec fn any_null(columns: Seq<ColumnView>) -> bool {
    exists|c: int| 0 <= c < columns.len() && has_null(#[trigger] columns[c].2)
}

/// Whether a column holds a value that is not NaN.
pub open spec fn number_in(cells: Seq<Option<int>>) -> bool {
    exists|r: int|
        0 <= r < cells.len() && (#[trigger] cells[r]) is Some && cells[r] != Some(
            float_code(ieee::NAN),
        )
}

/// The mark of a column that is not held to be sorted. Ascending columns have the mark one,
/// descending ones the mark two.
pub open spec fn unmarked() -> int {
    0
}

/// Whether a column of numbers has the order of its mark: its nulls stand together at one end,
/// and the other cells ascend or descend.
pub open spec fn holds_order(order: int, cells: Seq<Option<int>>) -> bool {
    ||| order == unmarked()
    ||| {
        &&& (forall|i: int, j: int|
            #![trigger cells[i], cells[j]]
            0 <= i < j < cells.len() && cells[j] is None ==> cells[i] is None) || (forall|
            i: int,
            j: int,
        |
            #![trigger cells[i], cells[j]]
            0 <= i < j < cells.len() && cells[i] is None ==> cells[j] is None)
        &&& forall|i: int, j: int|
            #![trigger cells[i], cells[j]]
            0 <= i < j < cells.len() && cells[i] is Some && cells[j] is Some ==> if order == 1 {
                code_rank(cells[i]->0) <= code_rank(cells[j]->0)
            } else {
                code_rank(cells[i]->0) >= code_rank(cells[j]->0)
            }
    }
}

/// Whether the type, the mark and the cells of a column settle its least and greatest value: a
/// floating-point column must hold a number, and have the order of its mark.
pub open spec fn settled(kind: int, order: int, cells: Seq<Option<int>>) -> bool {
    kind == float_kind() || kind == single_kind() ==> number_in(cells) && holds_order(order, cells)
}

/// Whether a column is `Float64` and settled.
pub open spec fn settled_float(kind: int, order: int, cells: Seq<Option<int>>) -> bool {
    kind == float_kind() && settled(kind, order, cells)
}

/// The cells as the entries of a matrix: NaN in place of each null.
pub open spec fn entries(cells: Seq<Option<int>>) -> Seq<int> {
    Seq::new(
        cells.len(),
        |r: int|
            match cells[r] {
                Some(code) => code,
                None => float_code(ieee::NAN),
            },
    )
}

/// The matrix of a table of `Float64`, column by column.
pub open spec fn float_entries(columns: Seq<ColumnView>) -> Seq<Seq<int>> {
    Seq::new(columns.len(), |c: int| entries(columns[c].2))
}

/// The columns of a matrix, by the numbers that stand for their entries.
pub open spec fn matrix_codes(matrix: Seq<Vec<u64>>) -> Seq<Seq<int>> {
    Seq::new(matrix.len(), |c: int| float_codes(matrix[c]@))
}

/// Which rows of a column are not null.
pub open spec fn present(cells: Seq<Option<int>>) -> Seq<bool> {
    Seq::new(cells.len(), |r: int| cells[r] is Some)
}

/// Whether no column is null in row `r`.
pub open spec fn complete(columns: Seq<ColumnView>, r: int) -> bool {
    forall|c: int| 0 <= c < columns.len() ==> (#[trigger] columns[c]).2[r] is Some
}

/// Which rows hold no null in any column.
pub open spec fn complete_rows(columns: Seq<ColumnView>) -> Seq<bool> {
    Seq::new(columns[0].2.len(), |r: int| complete(columns, r))
}

/// Whether all columns have `height` rows.
pub open spec fn level(columns: Seq<ColumnView>, height: nat) -> bool {
    forall|c: int| 0 <= c < columns.len() ==> (#[trigger] columns[c]).2.len() == height
}

/// The names of the columns, in order.
pub open spec fn names_of(columns: Seq<ColumnView>) -> Seq<Seq<char>> {
    Seq::new(columns.len(), |c: int| columns[c].0)
}

/// The number of rows of a table.
pub open spec fn height(columns: Seq<ColumnView>) -> nat {
    if columns.len() == 0 {
        0
    } else {
        columns[0].2.len()
    }
}

/// Whether the columns can stand side by side in a table: no two have the same name, and all
/// have the same number of rows.
pub open spec fn fit(columns: Seq<ColumnView>) -> bool {
    names_of(columns).no_duplicates() && level(columns, height(columns))
}

/// The items whose place in the mask is true, in order.
pub open spec fn kept<A>(items: Seq<A>, mask: Seq<bool>) -> Seq<A>
    decreases items.len(),
{
    if items.len() == 0 {
        items
    } else {
        let before = kept(items.drop_last(), mask.drop_last());
        if mask.last() {
            before.push(items.last())
        } else {
            before
        }
    }
}

/// The number of true places of a mask.
pub open spec fn count(mask: Seq<bool>) -> nat
    decreases mask.len(),
{
    if mask.len() == 0 {
        0
    } else {
        count(mask.drop_last()) + if mask.last() {
            1nat
        } else {
            0
        }
    }
}

/// The table without the rows whose place in the mask is false.
pub open spec fn kept_rows(columns: Seq<ColumnView>, mask: Seq<bool>) -> Seq<ColumnView> {
    Seq::new(columns.len(), |c: int| (columns[c].0, columns[c].1, kept(columns[c].2, mask)))
}

/// The table with a constant `Float64` column of the given name: in the place of the column
/// of that name, or else behind the others. A table without columns gets one row.
pub open spec fn with_constant(
    columns: Seq<ColumnView>,
    name: Seq<char>,
    code: int,
) -> Seq<ColumnView> {
    let rows = if columns.len() == 0 {
        1
    } else {
        height(columns)
    };
    let constant = (name, float_kind(), Seq::new(rows, |r: int| Some(code)));
    if names_of(columns).contains(name) {
        columns.update(names_of(columns).index_of(name), constant)
    } else {
        columns.push(constant)
    }
}

/// A column with nothing but nulls.
pub open spec fn all_null(cells: Seq<Option<int>>) -> bool {
    forall|r: int| 0 <= r < cells.len() ==> (#[trigger] cells[r]) is None
}

/// Whether a column of the same length is null wherever the first one is.
pub open spec fn nulls_stay(before: Seq<Option<int>>, after: Seq<Option<int>>) -> bool {
    before.len() == after.len() && forall|r: int|
        0 <= r < before.len() && (#[trigger] before[r]) is None ==> after[r] is None
}

/// The cells with the given value in place of each null.
pub open spec fn filled(cells: Seq<Option<int>>, code: int) -> Seq<Option<int>> {
    Seq::new(
        cells.len(),
        |r: int|
            if cells[r] is None {
                Some(code)
            } else {
                cells[r]
            },
    )
}

/// Whether columns can be the fields of structs, of which there are `length`: no two have the
/// same name, and each has as many rows as there are structs, or a single one.
pub open spec fn fields_fit(fields: Seq<ColumnView>, length: nat) -> bool {
    names_of(fields).no_duplicates() && forall|c: int|
        0 <= c < fields.len() ==> (#[trigger] fields[c]).2.len() == length || fields[c].2.len()
            == 1
}

/// The fields of structs, of which there are `length`: a column with a single row is repeated.
pub open spec fn spread(fields: Seq<ColumnView>, length: nat) -> Seq<ColumnView> {
    Seq::new(
        fields.len(),
        |c: int|
            if fields[c].2.len() == length {
                fields[c]
            } else {
                (fields[c].0, fields[c].1, Seq::new(length, |r: int| fields[c].2[0]))
            },
    )
}

/// Two `Float64` values stand for the same number exactly where they are equal or both NaN.
pub proof fn float_code_tells_numbers(a: u64, b: u64)
    ensures
        float_code(a) == float_code(b) <==> (ieee::nan(a) && ieee::nan(b)) || (!ieee::nan(a)
            && !ieee::nan(b) && ieee::rank(a) == ieee::rank(b)),
{
}

/// Different strings stand for different numbers.
pub proof fn text_code_injective(a: Seq<char>, b: Seq<char>)
    requires
        text_code(a) == text_code(b),
    ensures
        a == b,
    decreases a.len(),
{
    text_code_sign(a);
    text_code_sign(b);
    if a.len() > 0 && b.len() > 0 {
        char_bounds(a.last());
        char_bounds(b.last());
        text_code_injective(a.drop_last(), b.drop_last());
        assert(a =~= a.drop_last().push(a.last()));
        assert(b =~= b.drop_last().push(b.last()));
    }
    assert(a =~= b);
}

/// A character is less than the base of the numbers that stand for strings.
proof fn char_bounds(c: char)
    ensures
        0 <= (c as int) < 0x11_0000,
{
}

proof fn text_code_sign(a: Seq<char>)
    ensures
        text_code(a) >= 0,
        a.len() > 0 ==> text_code(a) > 0,
    decreases a.len(),
{
    if a.len() > 0 {
        char_bounds(a.last());
        text_code_sign(a.drop_last());
    }
}

/// Different lists stand for different numbers.
pub proof fn list_code_injective(a: Seq<int>, b: Seq<int>)
    requires
        list_code(a) == list_code(b),
        forall|i: int| 0 <= i < a.len() ==> 0 <= #[trigger] a[i] < 0x1_0000_0000_0000_0000,
        forall|i: int| 0 <= i < b.len() ==> 0 <= #[trigger] b[i] < 0x1_0000_0000_0000_0000,
    ensures
        a == b,
    decreases a.len(),
{
    list_code_sign(a);
    list_code_sign(b);
    if a.len() > 0 && b.len() > 0 {
        list_code_injective(a.drop_last(), b.drop_last());
        assert(a =~= a.drop_last().push(a.last()));
        assert(b =~= b.drop_last().push(b.last()));
    }
    assert(a =~= b);
}

proof fn list_code_sign(a: Seq<int>)
    requires
        forall|i: int| 0 <= i < a.len() ==> 0 <= #[trigger] a[i] < 0x1_0000_0000_0000_0000,
    ensures
        list_code(a) >= 0,
        a.len() > 0 ==> list_code(a) > 0,
    decreases a.len(),
{
    if a.len() > 0 {
        list_code_sign(a.drop_last());
    }
}

/// What is kept of a sequence is as long as its mask has true places.
pub proof fn kept_counts<A>(items: Seq<A>, mask: Seq<bool>)
    requires
        items.len() == mask.len(),
    ensures
        kept(items, mask).len() == count(mask),
        count(mask) <= mask.len(),
    decreases items.len(),
{
    if items.len() > 0 {
        kept_counts(items.drop_last(), mask.drop_last());
    }
}

/// Each item that is kept stood in a true place.
pub proof fn kept_from<A>(items: Seq<A>, mask: Seq<bool>, k: int) -> (r: int)
    requires
        items.len() == mask.len(),
        0 <= k < kept(items, mask).len(),
    ensures
        0 <= r < items.len(),
        mask[r],
        kept(items, mask)[k] == items[r],
        count(mask.take(r)) == k,
    decreases items.len(),
{
    kept_counts(items.drop_last(), mask.drop_last());
    let n = items.len() - 1;
    if k < kept(items.drop_last(), mask.drop_last()).len() {
        let r = kept_from(items.drop_last(), mask.drop_last(), k);
        assert(mask.drop_last().take(r) =~= mask.take(r));
        r
    } else {
        assert(mask.drop_last() =~= mask.take(n));
        n
    }
}

/// Each item in a true place is kept, behind those of the true places before it.
pub proof fn kept_holds<A>(items: Seq<A>, mask: Seq<bool>, r: int)
    requires
        items.len() == mask.len(),
        0 <= r < items.len(),
        mask[r],
    ensures
        count(mask.take(r)) < kept(items, mask).len(),
        kept(items, mask)[count(mask.take(r)) as int] == items[r],
    decreases items.len(),
{
    kept_counts(items.drop_last(), mask.drop_last());
    if r < items.len() - 1 {
        kept_holds(items.drop_last(), mask.drop_last(), r);
        assert(mask.drop_last().take(r) =~= mask.take(r));
    } else {
        assert(mask.drop_last() =~= mask.take(r));
    }
}

/// A mask counts its true places: as many as there are numbers of places that are true.
pub proof fn count_is_of_true_places(mask: Seq<bool>)
    ensures
        Set::new(|r: int| 0 <= r < mask.len() && mask[r]).finite(),
        count(mask) == Set::new(|r: int| 0 <= r < mask.len() && mask[r]).len(),
    decreases mask.len(),
{
    let places = Set::new(|r: int| 0 <= r < mask.len() && mask[r]);
    if mask.len() == 0 {
        assert(places =~= Set::empty());
    } else {
        let n = mask.len() - 1;
        let shorter = mask.drop_last();
        let before = Set::new(|r: int| 0 <= r < shorter.len() && shorter[r]);
        count_is_of_true_places(shorter);
        if mask.last() {
            assert(places =~= before.insert(n));
        } else {
            assert(places =~= before);
        }
    }
}

/// The names of columns are those of each column, in order.
pub proof fn names_by_column(columns: Seq<ColumnView>)
    ensures
        names_of(columns).len() == columns.len(),
        forall|c: int| 0 <= c < columns.len() ==> (#[trigger] names_of(columns)[c]) == columns[c].0,
{
}

} // verus!
