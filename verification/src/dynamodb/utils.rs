//! The table in which items are shown, and what is read of a table's key schema.
use vstd::prelude::*;

use comfy_table::Table;

use crate::dynamodb::formatter::{format_attribute_value, formatted};
use crate::dynamodb::types::{
    AttributeValue, DescribeTableOutput, Item, KeySchemaElement, KeyType,
};
use crate::strings::{
    chars_lt, insert_sorted, lemma_sorted_listing_unique, lemma_sorted_names, sorted_names, strictly_sorted,
    views,
};
use crate::table::{
    add_table_row, apply_round_corners, load_utf8_full_preset, new_table, set_dynamic_arrangement,
    set_table_header, table_arranged_dynamically, table_header, table_rows, table_style,
    lemma_rounded_utf8_style, rounded_utf8_style,
};

verus! {

/// The pairs of a row, each as the views of its name and its text.
pub open spec fn pair_views(pairs: Seq<(String, String)>) -> Seq<(Seq<char>, Seq<char>)> {
    pairs.map_values(|p: (String, String)| (p.0@, p.1@))
}

/// What a row holds under `column`: the text of its last entry for that column.
/// (A row is the sequence of its inserts; a later one replaces an earlier one.)
pub open spec fn row_get(row: Seq<(Seq<char>, Seq<char>)>, column: Seq<char>) -> Option<Seq<char>>
    decreases row.len(),
{
    if row.len() == 0 {
        None
    } else if row.last().0 == column {
        Some(row.last().1)
    } else {
        row_get(row.drop_last(), column)
    }
}

/// The text of a row's cell in `column`: what the row holds there, else empty.
pub open spec fn cell_text(row: Seq<(Seq<char>, Seq<char>)>, column: Seq<char>) -> Seq<char> {
    match row_get(row, column) {
        Some(text) => text,
        None => Seq::empty(),
    }
}

/// The name under which the absent sort key is looked for among the headers.
pub open spec fn absent_sort_key_name() -> Seq<char> {
    "Null"@
}

/// The model of a `DynamicTable`.
pub struct DynamicTableView {
    /// The name of the partition key.
    pub pk: Seq<char>,
    /// The name of the sort key, if the table has one.
    pub sk: Option<Seq<char>>,
    /// Every attribute name seen, in order and each once.
    pub headers: Seq<Seq<char>>,
    /// The rows added, each as the sequence of its (column, text) inserts.
    pub rows: Seq<Seq<(Seq<char>, Seq<char>)>>,
}

impl DynamicTableView {
    /// The column in which an attribute of the given name is shown: the
    /// partition key's and the sort key's are marked.
    pub open spec fn column_of(self, name: Seq<char>) -> Seq<char> {
        if name == self.pk {
            self.pk + " (PK)"@
        } else if self.sk == Some(name) {
            name + " (SK)"@
        } else {
            name
        }
    }

    /// The row that an item's (name, text) pairs become.
    pub open spec fn row_of(self, pairs: Seq<(Seq<char>, Seq<char>)>) -> Seq<(Seq<char>, Seq<char>)> {
        pairs.map_values(|p: (Seq<char>, Seq<char>)| (self.column_of(p.0), p.1))
    }

    /// The name looked for as the sort key: its name, or `Null` when there is none.
    pub open spec fn sort_key_name(self) -> Seq<char> {
        match self.sk {
            Some(sk) => sk,
            None => absent_sort_key_name(),
        }
    }

    /// The headers are sorted and none is there twice, and every entry of
    /// every row is in the column of some header.
    pub open spec fn well_formed(self) -> bool {
        &&& strictly_sorted(self.headers)
        &&& forall|i: int, j: int|
            0 <= i < self.rows.len() && 0 <= j < self.rows[i].len() ==> self.is_header_column(
                #[trigger] self.rows[i][j].0,
            )
    }

    /// `column` is the column of one of the headers.
    pub open spec fn is_header_column(self, column: Seq<char>) -> bool {
        exists|h: Seq<char>| self.headers.contains(h) && column == self.column_of(h)
    }

    /// Drawing the headers needs the sort key's name; without a sort key it
    /// fails when `Null` is among the headers.
    pub open spec fn header_drawable(self) -> bool {
        !(self.sk is None && self.headers.contains(absent_sort_key_name()))
    }

    /// The columns of the table: the partition key's first, if seen, then the
    /// sort key's, if seen, then every other header in order.
    pub open spec fn ordered_header(self) -> Seq<Seq<char>> {
        let skn = self.sort_key_name();
        (if self.headers.contains(self.pk) {
            seq![self.pk + " (PK)"@]
        } else {
            Seq::empty()
        }) + (if self.headers.contains(skn) {
            seq![skn + " (SK)"@]
        } else {
            Seq::empty()
        }) + self.headers.filter(|h: Seq<char>| h != self.pk && h != skn)
    }

    /// The cell texts of the table's body: one line per row, one cell per column.
    pub open spec fn cells(self) -> Seq<Seq<Seq<char>>> {
        self.rows.map_values(
            |row: Seq<(Seq<char>, Seq<char>)>|
                self.ordered_header().map_values(|column: Seq<char>| cell_text(row, column)),
        )
    }
}

/// A table of items whose columns are the attribute names seen, with the key
/// attributes first.
pub struct DynamicTable {
    pk: String,
    sk: Option<String>,
    headers: Vec<String>,
    rows: Vec<Vec<(String, String)>>,
}

pub open spec fn option_view(s: Option<String>) -> Option<Seq<char>> {
    match s {
        Some(s) => Some(s@),
        None => None,
    }
}

impl View for DynamicTable {
    type V = DynamicTableView;

    closed spec fn view(&self) -> DynamicTableView {
        DynamicTableView {
            pk: self.pk@,
            sk: option_view(self.sk),
            headers: views(self.headers@),
            rows: self.rows@.map_values(|row: Vec<(String, String)>| pair_views(row@)),
        }
    }
}

fn vec_contains(v: &Vec<String>, x: &String) -> (res: bool)
    ensures
        res == views(v@).contains(x@),
{
    let mut i: usize = 0;
    while i < v.len()
        invariant
            i <= v.len(),
            forall|j: int| 0 <= j < i ==> views(v@)[j] != x@,
        decreases v.len() - i,
    {
        if v[i] == *x {
            assert(views(v@)[i as int] == x@);
            return true;
        }
        i = i + 1;
    }
    false
}

fn with_suffix(name: &String, suffix: &str) -> (res: String)
    ensures
        res@ == name@ + suffix@,
{
    let mut res = name.clone();
    res.append(suffix);
    res
}

impl DynamicTable {
    /// A table with the given key names, no headers and no rows.
    pub fn new(primary_key: String, sort_key: Option<String>) -> (table: Self)
        ensures
            table@.pk == primary_key@,
            table@.sk == option_view(sort_key),
            table@.headers == Seq::<Seq<char>>::empty(),
            table@.rows == Seq::<Seq<(Seq<char>, Seq<char>)>>::empty(),
            table@.well_formed(),
    {
        let table = DynamicTable { pk: primary_key, sk: sort_key, headers: Vec::new(), rows: Vec::new() };
        assert(table@.headers =~= Seq::<Seq<char>>::empty());
        assert(table@.rows =~= Seq::<Seq<(Seq<char>, Seq<char>)>>::empty());
        table
    }

    /// Adds a row for an item given as (attribute name, text) pairs: every name
    /// becomes a header, and each text goes to the column of its name.
    pub fn add_row(&mut self, item: Vec<(String, String)>)
        requires
            old(self)@.well_formed(),
        ensures
            final(self)@.well_formed(),
            final(self)@.pk == old(self)@.pk,
            final(self)@.sk == old(self)@.sk,
            final(self)@.headers.to_set() == old(self)@.headers.to_set().union(
                pair_views(item@).map_values(|p: (Seq<char>, Seq<char>)| p.0).to_set(),
            ),
            final(self)@.rows == old(self)@.rows.push(old(self)@.row_of(pair_views(item@))),
    {
        let ghost old_view = self@;
        let ghost names = pair_views(item@).map_values(|p: (Seq<char>, Seq<char>)| p.0);
        let mut row: Vec<(String, String)> = Vec::new();
        let mut i: usize = 0;
        while i < item.len()
            invariant
                i <= item.len(),
                self.pk == old(self).pk,
                self.sk == old(self).sk,
                self.rows == old(self).rows,
                old_view == old(self)@,
                names == pair_views(item@).map_values(|p: (Seq<char>, Seq<char>)| p.0),
                strictly_sorted(views(self.headers@)),
                views(self.headers@).to_set() == old_view.headers.to_set().union(
                    names.take(i as int).to_set(),
                ),
                pair_views(row@) == old_view.row_of(pair_views(item@).take(i as int)),
            decreases item.len() - i,
        {
            let name = &item[i].0;
            let text = &item[i].1;
            insert_sorted(&mut self.headers, name.clone());
            let column = if *name == self.pk {
                with_suffix(&self.pk, " (PK)")
            } else {
                match &self.sk {
                    Some(sk) => if *sk == *name {
                        with_suffix(name, " (SK)")
                    } else {
                        name.clone()
                    },
                    None => name.clone(),
                }
            };
            assert(column@ == old_view.column_of(name@));
            let ghost before = row@;
            row.push((column, text.clone()));
            assert(pair_views(row@) =~= pair_views(before).push((column@, text@)));
            assert(pair_views(item@).take(i + 1) =~= pair_views(item@).take(i as int).push(
                (name@, text@),
            ));
            assert(old_view.row_of(pair_views(item@).take(i + 1)) =~= old_view.row_of(
                pair_views(item@).take(i as int),
            ).push((column@, text@)));
            assert(names.take(i + 1) =~= names.take(i as int).push(name@));
            proof {
                names.take(i as int).lemma_push_to_set_commute(name@);
            }
            i = i + 1;
        }
        assert(names.take(item.len() as int) =~= names);
        assert(pair_views(item@).take(item.len() as int) =~= pair_views(item@));
        let ghost new_row = row@;
        self.rows.push(row);
        assert(self@.rows =~= old_view.rows.push(old_view.row_of(pair_views(item@))));
        assert forall|i: int, j: int|
            0 <= i < self@.rows.len() && 0 <= j < self@.rows[i].len() implies self@.is_header_column(
            #[trigger] self@.rows[i][j].0,
        ) by {
            if i < old_view.rows.len() {
                assert(self@.rows[i] == old_view.rows[i]);
                assert(old_view.rows[i][j].0 == self@.rows[i][j].0);
                let h = choose|h: Seq<char>|
                    old_view.headers.contains(h) && old_view.rows[i][j].0 == old_view.column_of(h);
                assert(old_view.headers.to_set().contains(h));
                assert(self@.headers.to_set().contains(h));
                assert(self@.headers.contains(h) && self@.rows[i][j].0 == self@.column_of(h));
            } else {
                let h = pair_views(item@)[j].0;
                assert(self@.rows[i] == old_view.row_of(pair_views(item@)));
                assert(self@.rows[i][j].0 == old_view.column_of(h));
                assert(names[j] == h);
                assert(names.to_set().contains(h));
                assert(self@.headers.to_set().contains(h));
                assert(self@.headers.contains(h) && self@.rows[i][j].0 == self@.column_of(h));
            }
        }
    }

    /// The header row: the partition key's column if that attribute was seen,
    /// then the sort key's if it was seen, then the other attribute names in order.
    pub fn ordered_header(&self) -> (header: Vec<String>)
        requires
            self@.well_formed(),
            self@.header_drawable(),
        ensures
            views(header@) == self@.ordered_header(),
    {
        let skn = match &self.sk {
            Some(sk) => sk.clone(),
            None => String::from_str("Null"),
        };
        assert(skn@ == self@.sort_key_name());
        let ghost keep = |h: Seq<char>| h != self@.pk && h != skn@;
        let mut others: Vec<String> = Vec::new();
        let mut i: usize = 0;
        while i < self.headers.len()
            invariant
                i <= self.headers.len(),
                skn@ == self@.sort_key_name(),
                keep == (|h: Seq<char>| h != self@.pk && h != skn@),
                views(others@) == views(self.headers@).take(i as int).filter(keep),
            decreases self.headers.len() - i,
        {
            let h = &self.headers[i];
            proof {
                views(self.headers@).take(i as int).lemma_filter_push(h@, keep);
                assert(views(self.headers@).take(i + 1) =~= views(self.headers@).take(
                    i as int,
                ).push(h@));
            }
            if *h != self.pk && *h != skn {
                let ghost before = others@;
                others.push(h.clone());
                assert(views(others@) =~= views(before).push(h@));
            }
            i = i + 1;
        }
        assert(views(self.headers@).take(self.headers.len() as int) =~= views(self.headers@));
        let ghost pk_part: Seq<Seq<char>> = if self@.headers.contains(self@.pk) {
            seq![self@.pk + " (PK)"@]
        } else {
            Seq::empty()
        };
        let ghost sk_part: Seq<Seq<char>> = if self@.headers.contains(skn@) {
            seq![skn@ + " (SK)"@]
        } else {
            Seq::empty()
        };
        let mut header: Vec<String> = Vec::new();
        if vec_contains(&self.headers, &self.pk) {
            header.push(with_suffix(&self.pk, " (PK)"));
        }
        assert(views(header@) =~= pk_part);
        if vec_contains(&self.headers, &skn) {
            let ghost before = header@;
            header.push(with_suffix(&skn, " (SK)"));
            assert(views(header@) =~= views(before).push(skn@ + " (SK)"@));
        }
        assert(views(header@) =~= pk_part + sk_part);
        let ghost second = header@;
        let mut j: usize = 0;
        while j < others.len()
            invariant
                j <= others.len(),
                header@ == second + others@.take(j as int),
            decreases others.len() - j,
        {
            header.push(others[j].clone());
            assert(others@.take(j + 1) =~= others@.take(j as int).push(others@[j as int]));
            j = j + 1;
        }
        assert(others@.take(others.len() as int) =~= others@);
        assert(views(header@) =~= views(second) + views(others@));
        assert(keep =~= (|h: Seq<char>| h != self@.pk && h != self@.sort_key_name()));
        assert(views(header@) =~= self@.ordered_header());
        header
    }

    /// Draws the table: the header row, then one row per item with one cell
    /// per column, empty where the item has nothing for that column; with the
    /// `UTF8_FULL` characters and round corners, the columns fitted to the terminal.
    pub fn convert_to_table(&mut self) -> (table: Table)
        requires
            old(self)@.well_formed(),
            old(self)@.header_drawable(),
        ensures
            *final(self) == *old(self),
            table_header(table) == Some(old(self)@.ordered_header()),
            table_rows(table) == old(self)@.cells(),
            table_style(table) == rounded_utf8_style(),
            table_arranged_dynamically(table),
    {
        let mut table = new_table();
        let headers = self.ordered_header();
        load_utf8_full_preset(&mut table);
        apply_round_corners(&mut table);
        set_dynamic_arrangement(&mut table);
        set_table_header(&mut table, headers.clone());
        proof {
            lemma_rounded_utf8_style();
        }
        let ghost header_views = views(headers@);
        let mut r: usize = 0;
        while r < self.rows.len()
            invariant
                r <= self.rows.len(),
                header_views == self@.ordered_header(),
                views(headers@) == header_views,
                table_header(table) == Some(self@.ordered_header()),
                table_rows(table) == self@.cells().take(r as int),
                table_style(table) == rounded_utf8_style(),
                table_arranged_dynamically(table),
            decreases self.rows.len() - r,
        {
            let row = &self.rows[r];
            let ghost row_view = pair_views(row@);
            assert(row_view == self@.rows[r as int]);
            let mut cells: Vec<String> = Vec::new();
            let mut c: usize = 0;
            while c < headers.len()
                invariant
                    c <= headers.len(),
                    views(headers@) == header_views,
                    row_view == pair_views(row@),
                    views(cells@) == header_views.take(c as int).map_values(
                        |column: Seq<char>| cell_text(row_view, column),
                    ),
                decreases headers.len() - c,
            {
                let text = row_lookup(row, &headers[c]);
                let ghost before = cells@;
                cells.push(text);
                assert(views(cells@) =~= views(before).push(text@));
                assert(header_views.take(c + 1) =~= header_views.take(c as int).push(header_views[c as int]));
                c = c + 1;
            }
            assert(header_views.take(headers.len() as int) =~= header_views);
            add_table_row(&mut table, cells);
            assert(self@.cells().take(r + 1) =~= self@.cells().take(r as int).push(self@.cells()[r as int]));
            r = r + 1;
        }
        assert(self@.cells().take(self.rows.len() as int) =~= self@.cells());
        table
    }
}

/// What a row holds under `column` (the text of its last entry there), or nothing.
fn row_lookup(row: &Vec<(String, String)>, column: &String) -> (text: String)
    ensures
        text@ == cell_text(pair_views(row@), column@),
{
    let ghost all = pair_views(row@);
    let mut i: usize = row.len();
    assert(all.take(i as int) =~= all);
    while i > 0
        invariant
            i <= row.len(),
            all == pair_views(row@),
            row_get(all, column@) == row_get(all.take(i as int), column@),
        decreases i,
    {
        assert(all.take(i as int).drop_last() =~= all.take(i - 1));
        if row[i - 1].0 == *column {
            return row[i - 1].1.clone();
        }
        i = i - 1;
    }
    String::new()
}

/// The header depends only on the key names and on the set of attribute
/// names seen, not on the items' order nor on the order of their attributes.
pub proof fn lemma_header_depends_on_names_only(a: DynamicTableView, b: DynamicTableView)
    requires
        a.well_formed(),
        b.well_formed(),
        a.pk == b.pk,
        a.sk == b.sk,
        a.headers.to_set() == b.headers.to_set(),
    ensures
        a.ordered_header() == b.ordered_header(),
{
    lemma_sorted_listing_unique(a.headers, b.headers);
}

proof fn lemma_filter_keeps_names_sorted(s: Seq<Seq<char>>, keep: spec_fn(Seq<char>) -> bool)
    requires
        strictly_sorted(s),
    ensures
        strictly_sorted(s.filter(keep)),
    decreases s.len(),
{
    reveal(Seq::filter);
    if s.len() > 0 {
        let front = s.drop_last();
        assert(strictly_sorted(front)) by {
            assert forall|i: int, j: int| 0 <= i < j < front.len() implies chars_lt(
                #[trigger] front[i],
                #[trigger] front[j],
            ) by {
                assert(front[i] == s[i] && front[j] == s[j]);
            }
        }
        lemma_filter_keeps_names_sorted(front, keep);
        let sub = front.filter(keep);
        if keep(s.last()) {
            assert forall|i: int, j: int| 0 <= i < j < sub.push(s.last()).len() implies chars_lt(
                #[trigger] sub.push(s.last())[i],
                #[trigger] sub.push(s.last())[j],
            ) by {
                if j == sub.len() {
                    assert(sub.contains(sub[i]));
                    front.lemma_filter_contains_rev(keep, sub[i]);
                    let k = choose|k: int| 0 <= k < front.len() && front[k] == sub[i];
                    assert(s[k] == sub[i]);
                    assert(chars_lt(s[k], s[s.len() - 1]));
                }
            }
        }
    }
}

/// The columns after the key columns are every other attribute name seen,
/// each once, in the order of names; the partition key's column, when seen,
/// comes first.
pub proof fn lemma_other_columns_in_name_order(table: DynamicTableView)
    requires
        table.well_formed(),
    ensures
        ({
            let skn = table.sort_key_name();
            let key_columns: int = (if table.headers.contains(table.pk) {
                1int
            } else {
                0int
            }) + (if table.headers.contains(skn) {
                1int
            } else {
                0int
            });
            let others = table.ordered_header().skip(key_columns);
            &&& strictly_sorted(others)
            &&& others.to_set() == table.headers.to_set().remove(table.pk).remove(skn)
        }),
        table.headers.contains(table.pk) ==> table.ordered_header()[0] == table.pk + " (PK)"@,
{
    let skn = table.sort_key_name();
    let keep = |h: Seq<char>| h != table.pk && h != skn;
    let first: Seq<Seq<char>> = if table.headers.contains(table.pk) {
        seq![table.pk + " (PK)"@]
    } else {
        Seq::empty()
    };
    let second: Seq<Seq<char>> = if table.headers.contains(skn) {
        seq![skn + " (SK)"@]
    } else {
        Seq::empty()
    };
    let rest = table.headers.filter(keep);
    assert(table.ordered_header() == first + second + rest);
    assert((first + second + rest).skip((first.len() + second.len()) as int) =~= rest);
    lemma_filter_keeps_names_sorted(table.headers, keep);
    broadcast use vstd::seq_lib::group_filter_ensures;

    assert(rest.to_set() =~= table.headers.to_set().remove(table.pk).remove(skn)) by {
        assert forall|x: Seq<char>| rest.to_set().contains(x) implies table.headers.to_set().remove(
            table.pk,
        ).remove(skn).contains(x) by {
            table.headers.lemma_filter_contains_rev(keep, x);
            let i = choose|i: int| 0 <= i < rest.len() && rest[i] == x;
            assert(keep(rest[i]));
        }
        assert forall|x: Seq<char>| table.headers.to_set().remove(table.pk).remove(skn).contains(
            x,
        ) implies rest.to_set().contains(x) by {
            let k = choose|k: int| 0 <= k < table.headers.len() && table.headers[k] == x;
            assert(keep(table.headers[k]));
        }
    }
    if table.headers.contains(table.pk) {
        assert((first + second + rest)[0] == first[0]);
    }
}

/// Every entry of every row is shown: its column is in the header, and the
/// row holds a text for that column.
pub proof fn lemma_every_entry_is_shown(table: DynamicTableView, i: int, j: int)
    requires
        table.well_formed(),
        table.header_drawable(),
        0 <= i < table.rows.len(),
        0 <= j < table.rows[i].len(),
    ensures
        table.ordered_header().contains(table.rows[i][j].0),
        row_get(table.rows[i], table.rows[i][j].0) is Some,
{
    let column = table.rows[i][j].0;
    assert(table.is_header_column(column));
    let h = choose|h: Seq<char>| table.headers.contains(h) && column == table.column_of(h);
    let skn = table.sort_key_name();
    let keep = |x: Seq<char>| x != table.pk && x != skn;
    let first: Seq<Seq<char>> = if table.headers.contains(table.pk) {
        seq![table.pk + " (PK)"@]
    } else {
        Seq::empty()
    };
    let second: Seq<Seq<char>> = if table.headers.contains(skn) {
        seq![skn + " (SK)"@]
    } else {
        Seq::empty()
    };
    let rest = table.headers.filter(keep);
    assert(table.ordered_header() == first + second + rest);
    if h == table.pk {
        assert(first[0] == column);
        assert((first + second + rest)[0] == column);
    } else if table.sk == Some(h) {
        assert(second[0] == column);
        assert((first + second + rest)[first.len() as int] == column);
    } else {
        assert(keep(h));
        broadcast use vstd::seq_lib::group_filter_ensures;
        let k = choose|k: int| 0 <= k < table.headers.len() && table.headers[k] == h;
        assert(rest.contains(table.headers[k]));
        let m = choose|m: int| 0 <= m < rest.len() && rest[m] == h;
        assert((first + second + rest)[first.len() + second.len() + m] == column);
    }
    lemma_row_get_some(table.rows[i], j);
}

/// What a row holds under a column is the text of an entry for exactly that
/// column, the last such; it holds nothing there only when no entry is for it.
pub proof fn lemma_row_get_is_last_exact_match(row: Seq<(Seq<char>, Seq<char>)>, column: Seq<char>)
    ensures
        match row_get(row, column) {
            Some(text) => exists|j: int|
                0 <= j < row.len() && (#[trigger] row[j]).0 == column && row[j].1 == text
                    && forall|k: int| j < k < row.len() ==> (#[trigger] row[k]).0 != column,
            None => forall|j: int| 0 <= j < row.len() ==> (#[trigger] row[j]).0 != column,
        },
    decreases row.len(),
{
    if row.len() > 0 && row.last().0 != column {
        let front = row.drop_last();
        lemma_row_get_is_last_exact_match(front, column);
        match row_get(front, column) {
            Some(text) => {
                let j = choose|j: int|
                    0 <= j < front.len() && (#[trigger] front[j]).0 == column && front[j].1 == text
                        && forall|k: int| j < k < front.len() ==> (#[trigger] front[k]).0 != column;
                assert(row[j] == front[j]);
                assert forall|k: int| j < k < row.len() implies (#[trigger] row[k]).0 != column by {
                    if k < row.len() - 1 {
                        assert(row[k] == front[k]);
                    }
                }
            },
            None => {
                assert forall|j: int| 0 <= j < row.len() implies (#[trigger] row[j]).0 != column by {
                    if j < row.len() - 1 {
                        assert(row[j] == front[j]);
                    }
                }
            },
        }
    } else if row.len() > 0 {
        assert(row[row.len() - 1].0 == column);
    }
}

proof fn lemma_row_get_some(row: Seq<(Seq<char>, Seq<char>)>, j: int)
    requires
        0 <= j < row.len(),
    ensures
        row_get(row, row[j].0) is Some,
    decreases row.len(),
{
    if row.last().0 != row[j].0 {
        assert(row.drop_last()[j] == row[j]);
        lemma_row_get_some(row.drop_last(), j);
    }
}

/// The name of the first key-schema element with the given role.
pub open spec fn first_key_name(schema: Seq<KeySchemaElement>, key_type: KeyType) -> Option<
    Seq<char>,
>
    decreases schema.len(),
{
    if schema.len() == 0 {
        None
    } else if schema[0].key_type.same_as(&key_type) {
        Some(schema[0].attribute_name@)
    } else {
        first_key_name(schema.drop_first(), key_type)
    }
}

/// The name found for a role is that of an element with exactly that role,
/// the first such; none is found only when no element has that role.
pub proof fn lemma_first_key_name_is_first_with_role(schema: Seq<KeySchemaElement>, key_type: KeyType)
    ensures
        match first_key_name(schema, key_type) {
            Some(n) => exists|j: int|
                0 <= j < schema.len() && (#[trigger] schema[j]).key_type.same_as(&key_type)
                    && schema[j].attribute_name@ == n && forall|k: int|
                    0 <= k < j ==> !(#[trigger] schema[k]).key_type.same_as(&key_type),
            None => forall|j: int|
                0 <= j < schema.len() ==> !(#[trigger] schema[j]).key_type.same_as(&key_type),
        },
    decreases schema.len(),
{
    if schema.len() > 0 && !schema[0].key_type.same_as(&key_type) {
        let rest = schema.drop_first();
        lemma_first_key_name_is_first_with_role(rest, key_type);
        match first_key_name(rest, key_type) {
            Some(n) => {
                let j = choose|j: int|
                    0 <= j < rest.len() && (#[trigger] rest[j]).key_type.same_as(&key_type)
                        && rest[j].attribute_name@ == n && forall|k: int|
                        0 <= k < j ==> !(#[trigger] rest[k]).key_type.same_as(&key_type);
                assert(schema[j + 1] == rest[j]);
                assert forall|k: int| 0 <= k < j + 1 implies !(
                #[trigger] schema[k]).key_type.same_as(&key_type) by {
                    if k > 0 {
                        assert(schema[k] == rest[k - 1]);
                    }
                }
            },
            None => {
                assert forall|j: int| 0 <= j < schema.len() implies !(
                #[trigger] schema[j]).key_type.same_as(&key_type) by {
                    if j > 0 {
                        assert(schema[j] == rest[j - 1]);
                    }
                }
            },
        }
    } else if schema.len() > 0 {
        assert(schema[0].key_type.same_as(&key_type));
    }
}

/// The name of the table's key attribute with the given role, if the
/// description has a key schema with such an element.
pub open spec fn key_name(table_desc: DescribeTableOutput, key_type: KeyType) -> Option<Seq<char>> {
    match table_desc.table {
        Some(table) => match table.key_schema {
            Some(schema) => first_key_name(schema@, key_type),
            None => None,
        },
        None => None,
    }
}

/// Looks up the name of the key attribute with the given role.
pub fn get_key_name(table_desc: &DescribeTableOutput, key_type: KeyType) -> (name: Option<String>)
    ensures
        option_view(name) == key_name(*table_desc, key_type),
{
    match &table_desc.table {
        None => None,
        Some(table) => match &table.key_schema {
            None => None,
            Some(schema) => {
                let mut i: usize = 0;
                assert(schema@.skip(0) =~= schema@);
                while i < schema.len()
                    invariant
                        i <= schema.len(),
                        table_desc.table == Some(*table),
                        table.key_schema == Some(*schema),
                        first_key_name(schema@, key_type) == first_key_name(
                            schema@.skip(i as int),
                            key_type,
                        ),
                    decreases schema.len() - i,
                {
                    assert(schema@.skip(i as int)[0] == schema@[i as int]);
                    if schema[i].key_type.matches(&key_type) {
                        return Some(schema[i].attribute_name.clone());
                    }
                    assert(schema@.skip(i as int).drop_first() =~= schema@.skip(i + 1));
                    i = i + 1;
                }
                None
            },
        },
    }
}

/// An item's (name, shown text) pairs.
pub open spec fn item_texts(item: Item) -> Seq<(Seq<char>, Seq<char>)> {
    item@.map_values(|p: (String, AttributeValue)| (p.0@, formatted(p.1)))
}

/// Every attribute name of the items.
pub open spec fn item_names(items: Seq<Item>) -> Set<Seq<char>> {
    Set::new(
        |name: Seq<char>|
            exists|i: int, j: int|
                0 <= i < items.len() && 0 <= j < items[i]@.len() && #[trigger] items[i]@[j].0@
                    == name,
    )
}

/// The table in which items are shown for a table description: keyed by the
/// partition key's name (`PK` when the description has none) and the sort
/// key's name, with every attribute name as a header and one row per item.
pub open spec fn items_table(items: Seq<Item>, table_desc: DescribeTableOutput) -> DynamicTableView {
    let pk = match key_name(table_desc, KeyType::Hash) {
        Some(name) => name,
        None => "PK"@,
    };
    let sk = key_name(table_desc, KeyType::Range);
    let shape = DynamicTableView { pk, sk, headers: Seq::empty(), rows: Seq::empty() };
    DynamicTableView {
        pk,
        sk,
        headers: sorted_names(item_names(items)),
        rows: items.map_values(|item: Item| shape.row_of(item_texts(item))),
    }
}

/// The items can be drawn: when the table has no sort key, no item has an
/// attribute named `Null`.
pub open spec fn items_drawable(items: Seq<Item>, table_desc: DescribeTableOutput) -> bool {
    key_name(table_desc, KeyType::Range) is None ==> forall|i: int, j: int|
        0 <= i < items.len() && 0 <= j < items[i]@.len() ==> #[trigger] items[i]@[j].0@
            != absent_sort_key_name()
}

fn item_row(item: &Item) -> (row: Vec<(String, String)>)
    ensures
        pair_views(row@) == item_texts(*item),
{
    let mut row: Vec<(String, String)> = Vec::new();
    let mut j: usize = 0;
    while j < item.len()
        invariant
            j <= item.len(),
            pair_views(row@) == item_texts(*item).take(j as int),
        decreases item.len() - j,
    {
        let text = format_attribute_value(&item[j].1);
        let ghost before = row@;
        row.push((item[j].0.clone(), text));
        assert(pair_views(row@) =~= pair_views(before).push((item@[j as int].0@, text@)));
        assert(item_texts(*item).take(j + 1) =~= item_texts(*item).take(j as int).push(
            item_texts(*item)[j as int],
        ));
        j = j + 1;
    }
    assert(item_texts(*item).take(item.len() as int) =~= item_texts(*item));
    row
}

/// The table that shows the items, or nothing when there are no items (then
/// the program says that no items were found).
pub fn print_dynamo_items(items: &[Item], table_desc: &DescribeTableOutput) -> (table: Option<Table>)
    requires
        items_drawable(items@, *table_desc),
    ensures
        table is None <==> items@.len() == 0,
        table matches Some(t) ==> {
            &&& table_header(t) == Some(items_table(items@, *table_desc).ordered_header())
            &&& table_rows(t) == items_table(items@, *table_desc).cells()
            &&& table_style(t) == rounded_utf8_style()
            &&& table_arranged_dynamically(t)
        },
{
    if items.len() == 0 {
        return None;
    }
    let pk = match get_key_name(table_desc, KeyType::Hash) {
        Some(name) => name,
        None => String::from_str("PK"),
    };
    let sk = get_key_name(table_desc, KeyType::Range);
    let ghost goal = items_table(items@, *table_desc);
    let ghost shape = DynamicTableView { pk: goal.pk, sk: goal.sk, headers: Seq::empty(), rows: Seq::empty() };
    let mut dynamic_table = DynamicTable::new(pk, sk);
    let mut i: usize = 0;
    assert(item_names(items@.take(0)) =~= Set::<Seq<char>>::empty());
    assert(views(dynamic_table.headers@).to_set() =~= Set::<Seq<char>>::empty());
    while i < items.len()
        invariant
            i <= items.len(),
            goal == items_table(items@, *table_desc),
            shape.pk == goal.pk,
            shape.sk == goal.sk,
            dynamic_table@.pk == goal.pk,
            dynamic_table@.sk == goal.sk,
            dynamic_table@.well_formed(),
            dynamic_table@.headers.to_set() == item_names(items@.take(i as int)),
            dynamic_table@.rows == items@.take(i as int).map_values(
                |item: Item| shape.row_of(item_texts(item)),
            ),
        decreases items.len() - i,
    {
        let row = item_row(&items[i]);
        let ghost before = dynamic_table@;
        dynamic_table.add_row(row);
        let ghost names_i = pair_views(row@).map_values(|p: (Seq<char>, Seq<char>)| p.0);
        assert(before.row_of(item_texts(items@[i as int])) =~= shape.row_of(item_texts(items@[i as int])));
        assert(items@.take(i + 1) =~= items@.take(i as int).push(items@[i as int]));
        assert(dynamic_table@.rows =~= items@.take(i + 1).map_values(
            |item: Item| shape.row_of(item_texts(item)),
        ));
        assert(dynamic_table@.headers.to_set() =~= item_names(items@.take(i + 1))) by {
            let small = items@.take(i as int);
            let large = items@.take(i + 1);
            assert forall|name: Seq<char>| item_names(large).contains(name) implies dynamic_table@.headers.to_set().contains(name) by {
                let (a, b) = choose|a: int, b: int|
                    0 <= a < large.len() && 0 <= b < large[a]@.len() && #[trigger] large[a]@[b].0@ == name;
                if a < i {
                    assert(small[a]@[b].0@ == name);
                    assert(item_names(small).contains(name));
                } else {
                    assert(names_i[b] == name);
                    assert(names_i.to_set().contains(name));
                }
            }
            assert forall|name: Seq<char>| dynamic_table@.headers.to_set().contains(name) implies item_names(large).contains(name) by {
                if before.headers.to_set().contains(name) {
                    let (a, b) = choose|a: int, b: int|
                        0 <= a < small.len() && 0 <= b < small[a]@.len() && #[trigger] small[a]@[b].0@ == name;
                    assert(large[a]@[b].0@ == name);
                } else {
                    assert(names_i.to_set().contains(name));
                    let b = choose|b: int| 0 <= b < names_i.len() && names_i[b] == name;
                    assert(large[i as int]@[b].0@ == name);
                }
            }
        }
        i = i + 1;
    }
    assert(items@.take(items.len() as int) =~= items@);
    proof {
        lemma_sorted_names(dynamic_table@.headers);
        assert(dynamic_table@.rows =~= goal.rows);
        assert(dynamic_table@ == goal);
        if goal.sk is None && goal.headers.contains(absent_sort_key_name()) {
            assert(goal.headers.to_set().contains(absent_sort_key_name()));
            let (a, b) = choose|a: int, b: int|
                0 <= a < items@.len() && 0 <= b < items@[a]@.len() && #[trigger] items@[a]@[b].0@
                    == absent_sort_key_name();
            assert(false);
        }
    }
    Some(dynamic_table.convert_to_table())
}

/// Whether the items can be drawn for the table description (see `items_drawable`).
pub fn items_drawable_check(items: &[Item], table_desc: &DescribeTableOutput) -> (ok: bool)
    ensures
        ok == items_drawable(items@, *table_desc),
{
    if get_key_name(table_desc, KeyType::Range).is_some() {
        return true;
    }
    let null_name = String::from_str("Null");
    let mut i: usize = 0;
    while i < items.len()
        invariant
            i <= items.len(),
            key_name(*table_desc, KeyType::Range) is None,
            null_name@ == absent_sort_key_name(),
            forall|a: int, b: int|
                0 <= a < i && 0 <= b < items@[a]@.len() ==> #[trigger] items@[a]@[b].0@
                    != absent_sort_key_name(),
        decreases items.len() - i,
    {
        let item = &items[i];
        let mut j: usize = 0;
        while j < item.len()
            invariant
                j <= item.len(),
                i < items.len(),
                key_name(*table_desc, KeyType::Range) is None,
                *item == items@[i as int],
                null_name@ == absent_sort_key_name(),
                forall|b: int| 0 <= b < j ==> #[trigger] item@[b].0@ != absent_sort_key_name(),
            decreases item.len() - j,
        {
            if item[j].0 == null_name {
                assert(items@[i as int]@[j as int].0@ == absent_sort_key_name());
                return false;
            }
            j = j + 1;
        }
        assert forall|a: int, b: int|
            0 <= a < i + 1 && 0 <= b < items@[a]@.len() implies #[trigger] items@[a]@[b].0@
            != absent_sort_key_name() by {
            if a == i {
                assert(item@[b] == items@[a]@[b]);
            }
        }
        i = i + 1;
    }
    true
}

} // verus!
