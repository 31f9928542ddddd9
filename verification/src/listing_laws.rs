//! Lists that are picked from others: what is taken, what is left out, and in what order.

use vstd::prelude::*;
use crate::assets::icon_paths;
use crate::assets::{icon_bytes, icon_key};
use crate::export::Cell;
use crate::edit::PairView;
use crate::settings::ConnectionEntryView;
use crate::text::{has_part, lowercase, stands_at};
use crate::tls::{anchor_of, usable, with_file, Anchor};
use crate::tree::{
    is_kept, kept, schema_items, schema_shown, RelNodeView, SchemaNodeView, TreeItemView,
};
use crate::workspace::conn::without_name;
use crate::workspace::edit::filled_columns;
use crate::workspace::palette::{commands_with, PaletteCmd};
use crate::workspace::tab::TabView;
use crate::workspace::tabs::query_tabs;

verus! {

/// What is picked from a list: of the things that are wanted, in their order, what each gives.
pub open spec fn picked<A, B>(
    all: Seq<A>,
    wanted: spec_fn(A) -> bool,
    give: spec_fn(A) -> B,
) -> Seq<B> {
    all.filter(wanted).map_values(give)
}

pub(crate) proof fn lemma_picked<A, B>(all: Seq<A>, wanted: spec_fn(A) -> bool, give: spec_fn(A) -> B)
    requires
        all.len() > 0,
    ensures
        picked(all, wanted, give) == (if wanted(all.last()) {
            picked(all.drop_last(), wanted, give).push(give(all.last()))
        } else {
            picked(all.drop_last(), wanted, give)
        }),
{
    reveal(Seq::filter);
    assert(picked(all, wanted, give) =~= (if wanted(all.last()) {
        picked(all.drop_last(), wanted, give).push(give(all.last()))
    } else {
        picked(all.drop_last(), wanted, give)
    }));
}

pub(crate) proof fn lemma_picked_none<A, B>(all: Seq<A>, wanted: spec_fn(A) -> bool, give: spec_fn(A) -> B)
    requires
        all.len() == 0,
    ensures
        picked(all, wanted, give) == Seq::<B>::empty(),
{
    reveal(Seq::filter);
    assert(picked(all, wanted, give) =~= Seq::<B>::empty());
}

/// Whether a word stands somewhere in a text.
pub open spec fn occurs(word: Seq<char>, text: Seq<char>) -> bool {
    exists|i: int|
        0 <= i && i + word.len() <= text.len() && #[trigger] text.subrange(i, i + word.len())
            == word
}

proof fn lemma_occurs(word: Seq<char>, text: Seq<char>)
    ensures
        has_part(text, word) == occurs(word, text),
{
    if has_part(text, word) {
        let i = choose|i: int| stands_at(text, word, i);
        assert(text.subrange(i, i + word.len()) == word);
    }
    if occurs(word, text) {
        let i = choose|i: int|
            0 <= i && i + word.len() <= text.len() && #[trigger] text.subrange(i, i + word.len())
                == word;
        assert(stands_at(text, word, i));
    }
}

/// Whether a name answers to what was typed, whatever the case of its letters: what was typed
/// occurs in it. The empty text occurs everywhere.
pub open spec fn answers(name: Seq<char>, typed: Seq<char>) -> bool {
    typed.len() == 0 || occurs(typed, lowercase(name))
}

pub(crate) proof fn lemma_answers(name: Seq<char>, typed: Seq<char>)
    ensures
        is_kept(name, typed) == answers(name, typed),
{
    lemma_occurs(typed, lowercase(name));
}

/// A filter keeps the relations whose names answer to it, all of them and in their order.
pub proof fn law_filter_keeps_what_answers(rels: Seq<RelNodeView>, needle: Seq<char>)
    ensures
        kept(rels, needle) == picked(
            rels,
            |r: RelNodeView| answers(r.name, needle),
            |r: RelNodeView| r,
        ),
    decreases rels.len(),
{
    let wanted = |r: RelNodeView| answers(r.name, needle);
    let give = |r: RelNodeView| r;
    if rels.len() == 0 {
        lemma_picked_none(rels, wanted, give);
        assert(rels =~= Seq::<RelNodeView>::empty());
    } else {
        law_filter_keeps_what_answers(rels.drop_last(), needle);
        lemma_picked(rels, wanted, give);
        lemma_answers(rels.last().name, needle);
    }
}

/// Whether a schema is listed under a filter: where there is none, where its relations are not
/// known yet, and where one of them answers to it.
pub open spec fn is_listed(n: SchemaNodeView, needle: Seq<char>) -> bool {
    needle.len() == 0 || (match n.relations {
        None => true,
        Some(rels) => exists|i: int|
            0 <= i < rels.len() && answers((#[trigger] rels[i]).name, needle),
    })
}

proof fn lemma_some_kept(rels: Seq<RelNodeView>, needle: Seq<char>)
    ensures
        kept(rels, needle).len() > 0 <==> exists|i: int|
            0 <= i < rels.len() && answers((#[trigger] rels[i]).name, needle),
    decreases rels.len(),
{
    if rels.len() > 0 {
        let front = rels.drop_last();
        lemma_some_kept(front, needle);
        lemma_answers(rels.last().name, needle);
        if kept(front, needle).len() > 0 {
            let i = choose|i: int|
                0 <= i < front.len() && answers((#[trigger] front[i]).name, needle);
            assert(rels[i] == front[i]);
        }
        if answers(rels[rels.len() - 1].name, needle) {
        } else if exists|i: int| 0 <= i < rels.len() && answers((#[trigger] rels[i]).name, needle) {
            let i = choose|i: int| 0 <= i < rels.len() && answers((#[trigger] rels[i]).name, needle);
            assert(front[i] == rels[i]);
        }
    }
}

/// The tree has an item for every schema that is listed, under its name and in order.
pub proof fn law_listed_schemas_have_items(
    nodes: Seq<SchemaNodeView>,
    open: Set<Seq<char>>,
    needle: Seq<char>,
)
    ensures
        schema_items(nodes, open, needle).map_values(|i: TreeItemView| i.label) == picked(
            nodes,
            |n: SchemaNodeView| is_listed(n, needle),
            |n: SchemaNodeView| n.name,
        ),
    decreases nodes.len(),
{
    let wanted = |n: SchemaNodeView| is_listed(n, needle);
    let give = |n: SchemaNodeView| n.name;
    let items = schema_items(nodes, open, needle);
    let label = |i: TreeItemView| i.label;
    if nodes.len() == 0 {
        lemma_picked_none(nodes, wanted, give);
        assert(items.map_values(label) =~= Seq::<Seq<char>>::empty());
    } else {
        law_listed_schemas_have_items(nodes.drop_last(), open, needle);
        lemma_picked(nodes, wanted, give);
        if let Some(rels) = nodes.last().relations {
            lemma_some_kept(rels, needle);
        }
        assert(schema_shown(nodes.last(), needle) == is_listed(nodes.last(), needle));
        let before = schema_items(nodes.drop_last(), open, needle);
        if is_listed(nodes.last(), needle) {
            assert(items.map_values(label) =~= before.map_values(label).push(nodes.last().name));
        }
    }
}

/// The palette lists the commands whose labels answer to what was typed, in their order.
pub proof fn law_palette_lists_what_answers(
    list: Seq<(Seq<char>, PaletteCmd)>,
    needle: Seq<char>,
)
    ensures
        commands_with(list, needle) == picked(
            list,
            |e: (Seq<char>, PaletteCmd)| answers(e.0, needle),
            |e: (Seq<char>, PaletteCmd)| e,
        ),
    decreases list.len(),
{
    let wanted = |e: (Seq<char>, PaletteCmd)| answers(e.0, needle);
    let give = |e: (Seq<char>, PaletteCmd)| e;
    if list.len() == 0 {
        lemma_picked_none(list, wanted, give);
        assert(list =~= Seq::<(Seq<char>, PaletteCmd)>::empty());
    } else {
        law_palette_lists_what_answers(list.drop_last(), needle);
        lemma_picked(list, wanted, give);
        lemma_answers(list.last().0, needle);
    }
}

/// Taking a name out of the saved connections leaves every connection with another name, in
/// order.
pub proof fn law_other_connections_stay(entries: Seq<ConnectionEntryView>, name: Seq<char>)
    ensures
        without_name(entries, name) == picked(
            entries,
            |e: ConnectionEntryView| e.name != name,
            |e: ConnectionEntryView| e,
        ),
    decreases entries.len(),
{
    let wanted = |e: ConnectionEntryView| e.name != name;
    let give = |e: ConnectionEntryView| e;
    if entries.len() == 0 {
        lemma_picked_none(entries, wanted, give);
    } else {
        law_other_connections_stay(entries.drop_last(), name);
        lemma_picked(entries, wanted, give);
    }
}

/// The columns of a result with the cells of a row: none where the row is too short.
pub open spec fn cells_under(
    cols: Seq<Option<Seq<char>>>,
    row: Seq<Cell>,
) -> Seq<(Option<Seq<char>>, Cell)> {
    Seq::new(
        cols.len(),
        |i: int|
            (
                cols[i],
                if i < row.len() {
                    row[i]
                } else {
                    None
                },
            ),
    )
}

/// A new row is inserted with every column of the table that has a value in it, under its
/// name, in order; the others are left to their defaults.
pub proof fn law_new_row_holds_what_was_filled(cols: Seq<Option<Seq<char>>>, row: Seq<Cell>)
    ensures
        filled_columns(cols, row) == picked(
            cells_under(cols, row),
            |p: (Option<Seq<char>>, Cell)| p.0 is Some && p.1 is Some,
            |p: (Option<Seq<char>>, Cell)| (p.0->0, p.1),
        ),
    decreases cols.len(),
{
    let wanted = |p: (Option<Seq<char>>, Cell)| p.0 is Some && p.1 is Some;
    let give = |p: (Option<Seq<char>>, Cell)| (p.0->0, p.1);
    let all = cells_under(cols, row);
    if cols.len() == 0 {
        lemma_picked_none::<(Option<Seq<char>>, Cell), PairView>(all, wanted, give);
    } else {
        law_new_row_holds_what_was_filled(cols.drop_last(), row);
        lemma_picked(all, wanted, give);
        assert(all.drop_last() =~= cells_under(cols.drop_last(), row));
    }
}

/// The icons under a path are those whose paths begin with it, in order.
pub proof fn law_icons_are_listed_by_prefix(
    icons: Seq<(Seq<char>, Seq<u8>)>,
    prefix: Seq<char>,
)
    ensures
        icon_paths(icons, prefix) == picked(
            icons,
            |i: (Seq<char>, Seq<u8>)|
                prefix.len() <= i.0.len() && i.0.take(prefix.len() as int) == prefix,
            |i: (Seq<char>, Seq<u8>)| i.0,
        ),
    decreases icons.len(),
{
    let wanted = |i: (Seq<char>, Seq<u8>)|
        prefix.len() <= i.0.len() && i.0.take(prefix.len() as int) == prefix;
    let give = |i: (Seq<char>, Seq<u8>)| i.0;
    if icons.len() == 0 {
        lemma_picked_none(icons, wanted, give);
    } else {
        law_icons_are_listed_by_prefix(icons.drop_last(), prefix);
        lemma_picked(icons, wanted, give);
        let path = icons.last().0;
        if prefix.len() <= path.len() {
            assert(path.take(prefix.len() as int) =~= path.subrange(0, prefix.len() as int));
        }
    }
}

/// An icon is found under its path, with or without a slash before it: the first one with that
/// path.
pub proof fn law_icon_is_found_under_its_path(
    icons: Seq<(Seq<char>, Seq<u8>)>,
    path: Seq<char>,
    k: int,
)
    requires
        0 <= k < icons.len(),
        icons[k].0 == path,
        forall|j: int| 0 <= j < k ==> (#[trigger] icons[j]).0 != path,
        path.len() == 0 || path[0] != '/',
    ensures
        icon_bytes(icons, icon_key(path)) == Some(icons[k].1),
        icon_bytes(icons, icon_key(seq!['/'] + path)) == Some(icons[k].1),
{
    assert((seq!['/'] + path).drop_first() =~= path);
    lemma_icon_at(icons, path, k);
}

proof fn lemma_icon_at(icons: Seq<(Seq<char>, Seq<u8>)>, path: Seq<char>, k: int)
    requires
        0 <= k < icons.len(),
        icons[k].0 == path,
        forall|j: int| 0 <= j < k ==> (#[trigger] icons[j]).0 != path,
    ensures
        icon_bytes(icons, path) == Some(icons[k].1),
    decreases k,
{
    if k > 0 {
        assert(icons[0].0 != path);
        let more = icons.drop_first();
        assert forall|j: int| 0 <= j < k - 1 implies (#[trigger] more[j]).0 != path by {
            assert(icons[j + 1].0 != path);
        }
        lemma_icon_at(more, path, k - 1);
    }
}

/// Under a path that no icon has, none is found.
pub proof fn law_no_icon_under_another_path(icons: Seq<(Seq<char>, Seq<u8>)>, path: Seq<char>)
    requires
        forall|j: int| 0 <= j < icons.len() ==> (#[trigger] icons[j]).0 != path,
    ensures
        icon_bytes(icons, path) is None,
    decreases icons.len(),
{
    if icons.len() > 0 {
        let more = icons.drop_first();
        assert forall|j: int| 0 <= j < more.len() implies (#[trigger] more[j]).0 != path by {
            assert(icons[j + 1].0 != path);
        }
        assert(icons[0].0 != path);
        law_no_icon_under_another_path(more, path);
    }
}

/// Of the certificates of the operating system, those that can be used are trusted, all of
/// them and in order; the others are passed over.
pub proof fn law_usable_certificates_are_trusted(certs: Seq<Seq<u8>>)
    ensures
        usable(certs) == picked(
            certs,
            |c: Seq<u8>| anchor_of(c) is Ok,
            |c: Seq<u8>| anchor_of(c)->Ok_0,
        ),
    decreases certs.len(),
{
    let wanted = |c: Seq<u8>| anchor_of(c) is Ok;
    let give = |c: Seq<u8>| anchor_of(c)->Ok_0;
    if certs.len() == 0 {
        lemma_picked_none(certs, wanted, give);
    } else {
        law_usable_certificates_are_trusted(certs.drop_last());
        lemma_picked(certs, wanted, give);
    }
}

/// Whether an item of a file is a certificate that can be used.
pub open spec fn is_sound(item: Result<Seq<u8>, Seq<char>>) -> bool {
    item is Ok && anchor_of(item->Ok_0) is Ok
}

/// The certificates of a file that the user named are trusted besides the others, all of them
/// and in order; where one of them cannot be used, none is, and the first fault is told.
pub proof fn law_a_file_is_trusted_whole(
    base: Seq<Anchor>,
    items: Seq<Result<Seq<u8>, Seq<char>>>,
)
    ensures
        (forall|i: int| 0 <= i < items.len() ==> is_sound(#[trigger] items[i])) ==> with_file(
            base,
            items,
        ) == Ok::<Seq<Anchor>, Seq<char>>(
            base + Seq::new(items.len(), |i: int| anchor_of(items[i]->Ok_0)->Ok_0),
        ),
        forall|k: int|
            0 <= k < items.len() && !is_sound(#[trigger] items[k]) && (forall|i: int|
                0 <= i < k ==> is_sound(#[trigger] items[i])) ==> with_file(base, items) == Err::<
                Seq<Anchor>,
                Seq<char>,
            >(
                match items[k] {
                    Err(e) => e,
                    Ok(der) => anchor_of(der)->Err_0,
                },
            ),
    decreases items.len(),
{
    if items.len() == 0 {
        assert(base + Seq::new(items.len(), |i: int| anchor_of(items[i]->Ok_0)->Ok_0) =~= base);
    } else {
        let front = items.drop_last();
        law_a_file_is_trusted_whole(base, front);
        let n = items.len() - 1;
        if forall|i: int| 0 <= i < items.len() ==> is_sound(#[trigger] items[i]) {
            assert forall|i: int| 0 <= i < front.len() implies is_sound(#[trigger] front[i]) by {
                assert(is_sound(items[i]));
            }
            assert(is_sound(items[n]));
            assert(base + Seq::new(items.len(), |i: int| anchor_of(items[i]->Ok_0)->Ok_0) =~= (
            base + Seq::new(front.len(), |i: int| anchor_of(front[i]->Ok_0)->Ok_0)).push(
                anchor_of(items[n]->Ok_0)->Ok_0,
            ));
        }
        assert forall|k: int|
            0 <= k < items.len() && !is_sound(#[trigger] items[k]) && (forall|i: int|
                0 <= i < k ==> is_sound(#[trigger] items[i])) implies with_file(base, items)
            == Err::<Seq<Anchor>, Seq<char>>(
            match items[k] {
                Err(e) => e,
                Ok(der) => anchor_of(der)->Err_0,
            },
        ) by {
            if k < n {
                assert(front[k] == items[k]);
                assert forall|i: int| 0 <= i < k implies is_sound(#[trigger] front[i]) by {
                    assert(is_sound(items[i]));
                }
            } else {
                assert forall|i: int| 0 <= i < front.len() implies is_sound(
                    #[trigger] front[i],
                ) by {
                    assert(is_sound(items[i]));
                }
            }
        }
    }
}

/// Query tabs are numbered by how many there are.
pub proof fn law_query_tabs_are_counted(tabs: Seq<TabView>)
    ensures
        query_tabs(tabs) == tabs.filter(|t: TabView| t.kind is Query).len(),
    decreases tabs.len(),
{
    reveal(Seq::filter);
    if tabs.len() > 0 {
        law_query_tabs_are_counted(tabs.drop_last());
    }
}

} // verus!
