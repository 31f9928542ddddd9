//! Whether the rows of a query can be edited: its columns must come from one table, and
//! the primary key of that table must be among them.

use vstd::prelude::*;
use crate::edit::{DescribedResult, DescribedResultView, EditTarget, EditTargetView};

verus! {

/// Where a result column comes from, as the prepared statement says.
#[derive(Debug, Clone, Copy, PartialEq, Eq, Structural)]
pub struct ColumnSource {
    /// OID of the table; `None` for a computed column.
    pub table_oid: Option<u32>,
    /// Attribute number within that table.
    pub column_id: Option<i16>,
}

/// A column of the source table, from the catalog.
#[derive(Debug, Clone)]
pub struct Attribute {
    pub attnum: i16,
    pub name: String,
    pub is_pk: bool,
}

/// What an [`Attribute`] says.
pub struct AttributeView {
    pub attnum: i16,
    pub name: Seq<char>,
    pub is_pk: bool,
}

impl DeepView for Attribute {
    type V = AttributeView;

    open spec fn deep_view(&self) -> AttributeView {
        AttributeView { attnum: self.attnum, name: self.name@, is_pk: self.is_pk }
    }
}

/// Whether `t` is the one table that columns come from: at least one comes from it, and
/// none from another.
pub open spec fn is_single_source(cols: Seq<ColumnSource>, t: u32) -> bool {
    &&& exists|i: int| 0 <= i < cols.len() && (#[trigger] cols[i]).table_oid == Some(t)
    &&& forall|i: int|
        0 <= i < cols.len() && (#[trigger] cols[i]).table_oid is Some ==> cols[i].table_oid
            == Some(t)
}

/// The one table that all columns come from, computed ones left aside; `None` where
/// there is no such table.
pub fn source_table(cols: &Vec<ColumnSource>) -> (r: Option<u32>)
    ensures
        (match r {
            Some(t) => is_single_source(cols@, t),
            None => forall|t: u32| !is_single_source(cols@, t),
        }),
{
    let mut found: Option<u32> = None;
    for i in 0..cols.len()
        invariant
            (match found {
                Some(t) => is_single_source(cols@.take(i as int), t),
                None => forall|j: int| 0 <= j < i ==> (#[trigger] cols@[j]).table_oid is None,
            }),
    {
        if let Some(oid) = cols[i].table_oid {
            match found {
                None => {
                    found = Some(oid);
                    proof {
                        assert(cols@.take(i + 1)[i as int].table_oid == Some(oid));
                    }
                },
                Some(t) => {
                    if t != oid {
                        proof {
                            assert forall|u: u32| !is_single_source(cols@, u) by {
                                let k = choose|k: int|
                                    0 <= k < i && (#[trigger] cols@.take(i as int)[k]).table_oid
                                        == Some(t);
                                assert(cols@[k].table_oid == Some(t));
                                assert(cols@[i as int].table_oid == Some(oid));
                            }
                        }
                        return None;
                    }
                    proof {
                        assert(cols@.take(i + 1)[i as int].table_oid == Some(oid));
                        assert forall|j: int|
                            0 <= j < i + 1 && (#[trigger] cols@.take(
                                i + 1,
                            )[j]).table_oid is Some implies cols@.take(i + 1)[j].table_oid == Some(
                            t,
                        ) by {
                            if j < i {
                                assert(cols@.take(i as int)[j] == cols@[j]);
                            }
                        }
                    }
                },
            }
        } else {
            proof {
                if let Some(t) = found {
                    let k = choose|k: int|
                        0 <= k < i && (#[trigger] cols@.take(i as int)[k]).table_oid == Some(t);
                    assert(cols@.take(i + 1)[k].table_oid == Some(t));
                    assert forall|j: int|
                        0 <= j < i + 1 && (#[trigger] cols@.take(
                            i + 1,
                        )[j]).table_oid is Some implies cols@.take(i + 1)[j].table_oid == Some(
                        t,
                    ) by {
                        if j < i {
                            assert(cols@.take(i as int)[j] == cols@[j]);
                        }
                    }
                }
            }
        }
    }
    proof {
        assert(cols@.take(cols@.len() as int) == cols@);
    }
    found
}

/// The name of the attribute with a number: that of the last one in the list.
pub open spec fn attribute_name(attrs: Seq<AttributeView>, attnum: i16) -> Option<Seq<char>>
    decreases attrs.len(),
{
    if attrs.len() == 0 {
        None
    } else if attrs.last().attnum == attnum {
        Some(attrs.last().name)
    } else {
        attribute_name(attrs.drop_last(), attnum)
    }
}

/// The names of the key attributes, in order.
pub open spec fn key_names(attrs: Seq<AttributeView>) -> Seq<Seq<char>>
    decreases attrs.len(),
{
    if attrs.len() == 0 {
        Seq::empty()
    } else if attrs.last().is_pk {
        key_names(attrs.drop_last()).push(attrs.last().name)
    } else {
        key_names(attrs.drop_last())
    }
}

/// The table column behind each result column.
pub open spec fn real_columns(
    cols: Seq<ColumnSource>,
    attrs: Seq<AttributeView>,
) -> Seq<Option<Seq<char>>> {
    cols.map_values(
        |c: ColumnSource|
            match c.column_id {
                Some(a) => attribute_name(attrs, a),
                None => None,
            },
    )
}

/// Rows can be addressed: there is a key, and every key column is in the result.
pub open spec fn addressable(keys: Seq<Seq<char>>, columns: Seq<Option<Seq<char>>>) -> bool {
    &&& keys.len() > 0
    &&& forall|i: int| 0 <= i < keys.len() ==> columns.contains(Some(#[trigger] keys[i]))
}

fn name_of(attrs: &Vec<Attribute>, attnum: i16) -> (r: Option<String>)
    ensures
        r.deep_view() == attribute_name(attrs.deep_view(), attnum),
{
    let ghost av = attrs.deep_view();
    let mut i: usize = attrs.len();
    proof {
        assert(av.take(av.len() as int) == av);
    }
    while i > 0
        invariant
            i <= attrs@.len(),
            av == attrs.deep_view(),
            attribute_name(av.take(i as int), attnum) == attribute_name(av, attnum),
        decreases i,
    {
        i -= 1;
        proof {
            assert(av.take(i + 1).drop_last() == av.take(i as int));
            assert(av.take(i + 1).last() == attrs@[i as int].deep_view());
        }
        if attrs[i].attnum == attnum {
            return Some(attrs[i].name.clone());
        }
    }
    None
}

fn has_name(columns: &Vec<Option<String>>, name: &String) -> (r: bool)
    ensures
        r == columns.deep_view().contains(Some(name@)),
{
    for i in 0..columns.len()
        invariant
            forall|j: int| 0 <= j < i ==> columns.deep_view()[j] != Some(name@),
    {
        if let Some(c) = &columns[i] {
            if *c == *name {
                proof {
                    assert(columns.deep_view()[i as int] == Some(name@));
                }
                return true;
            }
        }
    }
    false
}

/// How the result can be edited against `schema.table`, whose columns are `attrs`;
/// `None` where its rows cannot be addressed.
pub fn described(
    cols: &Vec<ColumnSource>,
    schema: String,
    table: String,
    attrs: &Vec<Attribute>,
) -> (r: Option<DescribedResult>)
    ensures
        ({
            let keys = key_names(attrs.deep_view());
            let columns = real_columns(cols@, attrs.deep_view());
            match r {
                Some(d) => addressable(keys, columns) && d.deep_view() == (DescribedResultView {
                    target: EditTargetView { schema: schema@, table: table@, pk_columns: keys },
                    columns,
                }),
                None => !addressable(keys, columns),
            }
        }),
        r matches Some(d) ==> is_whole_key(d.deep_view().target.pk_columns, attrs.deep_view())
            && d.deep_view().columns.len() == cols@.len() && forall|c: int|
            0 <= c < cols@.len() ==> names_column(
                #[trigger] d.deep_view().columns[c],
                cols@[c],
                attrs.deep_view(),
            ),
{
    proof {
        law_key_is_whole(attrs.deep_view());
        law_columns_have_their_names(cols@, attrs.deep_view());
    }
    let ghost av = attrs.deep_view();
    let mut pk_columns: Vec<String> = Vec::new();
    proof {
        assert(pk_columns.deep_view() =~= key_names(av.take(0)));
    }
    for i in 0..attrs.len()
        invariant
            av == attrs.deep_view(),
            pk_columns.deep_view() == key_names(av.take(i as int)),
    {
        proof {
            assert(av.take(i + 1).drop_last() == av.take(i as int));
            assert(av.take(i + 1).last() == attrs@[i as int].deep_view());
        }
        if attrs[i].is_pk {
            let ghost before = pk_columns.deep_view();
            pk_columns.push(attrs[i].name.clone());
            proof {
                assert(pk_columns.deep_view() =~= before.push(attrs@[i as int].name@));
            }
        }
    }
    proof {
        assert(av.take(av.len() as int) == av);
    }
    if pk_columns.len() == 0 {
        return None;
    }
    let mut columns: Vec<Option<String>> = Vec::new();
    for i in 0..cols.len()
        invariant
            columns@.len() == i,
            forall|j: int|
                0 <= j < i ==> (#[trigger] columns@[j]).deep_view() == real_columns(
                    cols@,
                    attrs.deep_view(),
                )[j],
    {
        let name = match cols[i].column_id {
            Some(a) => name_of(attrs, a),
            None => None,
        };
        columns.push(name);
    }
    proof {
        assert(columns.deep_view() =~= real_columns(cols@, attrs.deep_view()));
    }
    for i in 0..pk_columns.len()
        invariant
            forall|j: int|
                0 <= j < i ==> columns.deep_view().contains(
                    Some(#[trigger] pk_columns.deep_view()[j]),
                ),
            pk_columns.deep_view() == key_names(attrs.deep_view()),
            columns.deep_view() == real_columns(cols@, attrs.deep_view()),
    {
        if !has_name(&columns, &pk_columns[i]) {
            proof {
                assert(pk_columns.deep_view()[i as int] == pk_columns@[i as int]@);
            }
            return None;
        }
    }
    Some(DescribedResult { target: EditTarget { schema, table, pk_columns }, columns })
}

// ---- laws ------------------------------------------------------------------------

/// Whether names are those of the key of a table with these attributes: every attribute of
/// the key is among them, at the place that it has among the attributes of the key, and no
/// other name is.
pub open spec fn is_whole_key(keys: Seq<Seq<char>>, attrs: Seq<AttributeView>) -> bool {
    &&& keys.len() == attrs.filter(|a: AttributeView| a.is_pk).len()
    &&& forall|i: int|
        0 <= i < attrs.len() && (#[trigger] attrs[i]).is_pk ==> {
            let k = attrs.take(i).filter(|a: AttributeView| a.is_pk).len() as int;
            k < keys.len() && keys[k] == attrs[i].name
        }
}

/// Whether a name is that of the table column behind a result column: the column says which
/// attribute it shows, and the last one in the list with that number has the name. A column
/// that shows none, or one that is not in the list, has no name.
pub open spec fn names_column(
    name: Option<Seq<char>>,
    col: ColumnSource,
    attrs: Seq<AttributeView>,
) -> bool {
    match name {
        Some(n) => exists|k: int|
            0 <= k < attrs.len() && col.column_id == Some((#[trigger] attrs[k]).attnum)
                && attrs[k].name == n && forall|m: int|
                k < m < attrs.len() ==> col.column_id != Some((#[trigger] attrs[m]).attnum),
        None => forall|m: int|
            0 <= m < attrs.len() ==> col.column_id != Some((#[trigger] attrs[m]).attnum),
    }
}

proof fn lemma_key_names(attrs: Seq<AttributeView>)
    ensures
        is_whole_key(key_names(attrs), attrs),
        forall|n: Seq<char>| #[trigger]
            key_names(attrs).contains(n) ==> exists|i: int|
                0 <= i < attrs.len() && (#[trigger] attrs[i]).is_pk && attrs[i].name == n,
    decreases attrs.len(),
{
    let is_key = |a: AttributeView| a.is_pk;
    reveal(Seq::filter);
    if attrs.len() > 0 {
        let front = attrs.drop_last();
        lemma_key_names(front);
        let keys = key_names(attrs);
        let before = key_names(front);
        assert forall|i: int| 0 <= i < attrs.len() && (#[trigger] attrs[i]).is_pk implies ({
            let k = attrs.take(i).filter(is_key).len() as int;
            k < keys.len() && keys[k] == attrs[i].name
        }) by {
            if i < front.len() {
                assert(front[i] == attrs[i]);
                assert(front.take(i) =~= attrs.take(i));
            } else {
                assert(attrs.take(i) =~= front);
            }
        }
        assert forall|n: Seq<char>| #[trigger] keys.contains(n) implies exists|i: int|
            0 <= i < attrs.len() && (#[trigger] attrs[i]).is_pk && attrs[i].name == n by {
            let m = choose|m: int| 0 <= m < keys.len() && keys[m] == n;
            if m < before.len() {
                assert(before[m] == n);
                assert(before.contains(n));
                let i = choose|i: int|
                    0 <= i < front.len() && (#[trigger] front[i]).is_pk && front[i].name == n;
                assert(attrs[i] == front[i]);
            } else {
                assert(attrs[attrs.len() - 1].is_pk);
            }
        }
    }
}

proof fn lemma_attribute_name(attrs: Seq<AttributeView>, col: ColumnSource)
    requires
        col.column_id is Some,
    ensures
        names_column(attribute_name(attrs, col.column_id->0), col, attrs),
    decreases attrs.len(),
{
    let a = col.column_id->0;
    if attrs.len() > 0 {
        let front = attrs.drop_last();
        let last = attrs[attrs.len() - 1];
        if last.attnum != a {
            lemma_attribute_name(front, col);
            match attribute_name(front, a) {
                Some(n) => {
                    let k = choose|k: int|
                        0 <= k < front.len() && col.column_id == Some((#[trigger] front[k]).attnum)
                            && front[k].name == n && forall|m: int|
                            k < m < front.len() ==> col.column_id != Some(
                                (#[trigger] front[m]).attnum,
                            );
                    assert(attrs[k] == front[k]);
                    assert forall|m: int| k < m < attrs.len() implies col.column_id != Some(
                        (#[trigger] attrs[m]).attnum,
                    ) by {
                        if m < front.len() {
                            assert(front[m] == attrs[m]);
                        }
                    }
                },
                None => {
                    assert forall|m: int| 0 <= m < attrs.len() implies col.column_id != Some(
                        (#[trigger] attrs[m]).attnum,
                    ) by {
                        if m < front.len() {
                            assert(front[m] == attrs[m]);
                        }
                    }
                },
            }
        } else {
            assert(last.name == attribute_name(attrs, a)->0);
        }
    }
}

/// The key of a result is the whole primary key of its table, in the order of the list,
/// however many columns it has.
pub proof fn law_key_is_whole(attrs: Seq<AttributeView>)
    ensures
        is_whole_key(key_names(attrs), attrs),
        forall|i: int|
            0 <= i < attrs.len() && (#[trigger] attrs[i]).is_pk ==> key_names(attrs).contains(
                attrs[i].name,
            ),
        forall|n: Seq<char>| #[trigger]
            key_names(attrs).contains(n) ==> exists|i: int|
                0 <= i < attrs.len() && (#[trigger] attrs[i]).is_pk && attrs[i].name == n,
{
    lemma_key_names(attrs);
    assert forall|i: int| 0 <= i < attrs.len() && (#[trigger] attrs[i]).is_pk implies key_names(
        attrs,
    ).contains(attrs[i].name) by {
        let k = attrs.take(i).filter(|a: AttributeView| a.is_pk).len() as int;
        assert(key_names(attrs)[k] == attrs[i].name);
    }
}

/// Each result column has the name of the table column behind it, if there is one.
pub proof fn law_columns_have_their_names(cols: Seq<ColumnSource>, attrs: Seq<AttributeView>)
    ensures
        real_columns(cols, attrs).len() == cols.len(),
        forall|c: int|
            0 <= c < cols.len() ==> names_column(
                #[trigger] real_columns(cols, attrs)[c],
                cols[c],
                attrs,
            ),
{
    assert forall|c: int| 0 <= c < cols.len() implies names_column(
        #[trigger] real_columns(cols, attrs)[c],
        cols[c],
        attrs,
    ) by {
        if cols[c].column_id is Some {
            lemma_attribute_name(attrs, cols[c]);
        }
    }
}

/// A result can be edited exactly where its table has a primary key and each column of that
/// key is one of the columns of the result.
pub proof fn law_editable_results_hold_the_key(
    cols: Seq<ColumnSource>,
    attrs: Seq<AttributeView>,
)
    ensures
        addressable(key_names(attrs), real_columns(cols, attrs)) <==> (exists|i: int|
            0 <= i < attrs.len() && (#[trigger] attrs[i]).is_pk) && forall|i: int|
            0 <= i < attrs.len() && (#[trigger] attrs[i]).is_pk ==> real_columns(
                cols,
                attrs,
            ).contains(Some(attrs[i].name)),
{
    law_key_is_whole(attrs);
    let keys = key_names(attrs);
    let columns = real_columns(cols, attrs);
    if addressable(keys, columns) {
        assert(keys.contains(keys[0]));
        assert forall|i: int| 0 <= i < attrs.len() && (#[trigger] attrs[i]).is_pk implies
            columns.contains(Some(attrs[i].name)) by {
            assert(keys.contains(attrs[i].name));
            let m = choose|m: int| 0 <= m < keys.len() && keys[m] == attrs[i].name;
            assert(columns.contains(Some(keys[m])));
        }
    }
    if (exists|i: int| 0 <= i < attrs.len() && (#[trigger] attrs[i]).is_pk) && forall|i: int|
        0 <= i < attrs.len() && (#[trigger] attrs[i]).is_pk ==> columns.contains(
            Some(attrs[i].name),
        ) {
        let i = choose|i: int| 0 <= i < attrs.len() && (#[trigger] attrs[i]).is_pk;
        assert(keys.contains(attrs[i].name));
        assert forall|m: int| 0 <= m < keys.len() implies columns.contains(
            Some(#[trigger] keys[m]),
        ) by {
            assert(keys.contains(keys[m]));
            let k = choose|k: int|
                0 <= k < attrs.len() && (#[trigger] attrs[k]).is_pk && attrs[k].name == keys[m];
            assert(columns.contains(Some(attrs[k].name)));
        }
    }
}

} // verus!
