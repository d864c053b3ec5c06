//! The mangas of a library: each has a folder named `ID - TITLE`.
use vstd::prelude::*;
use crate::structs::SearchResult;
use crate::text::{
    append_str, chars_of, contains_pattern, first_occurrence, is_first_occurrence,
    lemma_first_occurrence_is, occurs_at, owned, split_once, split_once_chars,
};

verus! {

/// The name of the folder that holds manga `id` titled `title`.
pub open spec fn folder_name(id: Seq<char>, title: Seq<char>) -> Seq<char> {
    id + " - "@ + title
}

/// The name `[ID] NAME`, which an existing folder may have: a manga whose
/// folder has that name is not added again.
pub open spec fn bracketed_name(id: Seq<char>, name: Seq<char>) -> Seq<char> {
    "["@ + id + "] "@ + name
}

/// The manga that a folder of the given name holds: the id is what comes
/// before the first ` - `, the title what follows it.
pub open spec fn manga_of_folder(name: Seq<char>) -> Option<(Seq<char>, Seq<char>)> {
    split_once(name, " - "@)
}

/// The mangas of a library whose entries are the given names, each with
/// whether it is a folder: the folders whose name holds ` - `, in order.
pub open spec fn mangas_in(entries: Seq<(Seq<char>, bool)>) -> Seq<(Seq<char>, Seq<char>)>
    decreases entries.len(),
{
    if entries.len() == 0 {
        Seq::empty()
    } else {
        let rest = mangas_in(entries.drop_last());
        let (name, is_folder) = entries.last();
        match manga_of_folder(name) {
            Some(m) => if is_folder {
                rest.push(m)
            } else {
                rest
            },
            None => rest,
        }
    }
}

/// An entry of a library's folder: its name and whether it is itself a folder.
pub struct FolderEntry {
    pub name: String,
    pub is_dir: bool,
}

impl View for FolderEntry {
    type V = (Seq<char>, bool);

    open spec fn view(&self) -> (Seq<char>, bool) {
        (self.name@, self.is_dir)
    }
}

/// The plain values of a list of entries.
pub open spec fn entries_view(v: Seq<FolderEntry>) -> Seq<(Seq<char>, bool)> {
    v.map_values(|e: FolderEntry| e@)
}

/// The name of the folder that holds manga `id` titled `title`.
pub fn manga_folder_name(id: &str, title: &str) -> (name: String)
    ensures
        name@ == folder_name(id@, title@),
{
    let mut name = owned(id);
    append_str(&mut name, " - ");
    append_str(&mut name, title);
    name
}

/// The name `[ID] NAME` that an existing folder of the manga may have.
pub fn bracketed_folder_name(id: &str, name: &str) -> (res: String)
    ensures
        res@ == bracketed_name(id@, name@),
{
    let mut res = owned("[");
    append_str(&mut res, id);
    append_str(&mut res, "] ");
    append_str(&mut res, name);
    res
}

/// Adds manga `manga_id` named `manga_name` to a library: the folder to
/// create, or `None` where a folder named `[ID] NAME` (see
/// `bracketed_folder_name`) already exists.
pub fn add_manga(manga_id: &str, manga_name: &str, bracketed_exists: bool) -> (folder: Option<String>)
    ensures
        match folder {
            Some(f) => !bracketed_exists && f@ == folder_name(manga_id@, manga_name@),
            None => bracketed_exists,
        },
{
    if bracketed_exists {
        None
    } else {
        Some(manga_folder_name(manga_id, manga_name))
    }
}

/// The manga that a folder named `name` holds, if its name has the form
/// `ID - TITLE`.
pub fn manga_from_folder_name(name: &str) -> (res: Option<SearchResult>)
    ensures
        match res {
            Some(r) => manga_of_folder(name@) == Some((r.id@, r.title@)),
            None => manga_of_folder(name@).is_none(),
        },
{
    let chars = chars_of(name);
    let sep = chars_of(" - ");
    match split_once_chars(chars.as_slice(), sep.as_slice()) {
        Some((id, title)) => Some(SearchResult { title, id }),
        None => None,
    }
}

/// The mangas of a library, given the entries of its folder: each folder
/// named `ID - TITLE`, in the order of the entries.
pub fn get_mangas(entries: &Vec<FolderEntry>) -> (mangas: Vec<SearchResult>)
    ensures
        mangas@.map_values(|r: SearchResult| (r.id@, r.title@)) == mangas_in(entries_view(entries@)),
{
    let mut mangas: Vec<SearchResult> = Vec::new();
    for i in 0..entries.len()
        invariant
            mangas@.map_values(|r: SearchResult| (r.id@, r.title@)) == mangas_in(
                entries_view(entries@).take(i as int),
            ),
    {
        let ghost before = mangas@;
        proof {
            let t = entries_view(entries@).take(i + 1);
            assert(t.drop_last() =~= entries_view(entries@).take(i as int));
            assert(t.last() == entries@[i as int]@);
        }
        if entries[i].is_dir {
            match manga_from_folder_name(&entries[i].name) {
                Some(m) => {
                    mangas.push(m);
                    assert(mangas@.map_values(|r: SearchResult| (r.id@, r.title@)) =~= before.map_values(
                        |r: SearchResult| (r.id@, r.title@),
                    ).push((m.id@, m.title@)));
                },
                None => {},
            }
        }
    }
    assert(entries_view(entries@).take(entries@.len() as int) =~= entries_view(entries@));
    mangas
}

/// The folder of a manga is read back as that manga, provided the id does
/// not itself lead to an earlier ` - `: that is, ` - ` does not occur in the
/// id followed by ` -`.
pub proof fn lemma_folder_name_round_trip(id: Seq<char>, title: Seq<char>)
    requires
        !contains_pattern(id + " -"@, " - "@),
    ensures
        manga_of_folder(folder_name(id, title)) == Some((id, title)),
{
    reveal_strlit(" - ");
    reveal_strlit(" -");
    let sep = " - "@;
    let s = folder_name(id, title);
    let k = id.len() as int;
    assert(s.subrange(k, k + 3) =~= sep);
    assert forall|j: int| 0 <= j < k implies !occurs_at(s, sep, j) by {
        if occurs_at(s, sep, j) {
            let prefix = id + " -"@;
            assert(prefix =~= s.take(k + 2));
            assert(prefix.subrange(j, j + 3) =~= s.subrange(j, j + 3));
            assert(occurs_at(prefix, sep, j));
        }
    }
    assert(is_first_occurrence(s, sep, k));
    lemma_first_occurrence_is(s, sep, k);
    assert(s.take(k) =~= id);
    assert(s.skip(k + 3) =~= title);
}

/// How many times `m` occurs in `s`.
pub open spec fn occurrences(s: Seq<(Seq<char>, Seq<char>)>, m: (Seq<char>, Seq<char>)) -> nat
    decreases s.len(),
{
    if s.len() == 0 {
        0
    } else {
        occurrences(s.drop_last(), m) + if s.last() == m {
            1nat
        } else {
            0nat
        }
    }
}

/// A folder read as a manga has the name of that manga's folder.
proof fn lemma_manga_of_folder_name(n: Seq<char>)
    ensures
        manga_of_folder(n) matches Some((a, b)) ==> n == folder_name(a, b),
{
    if let Some((a, b)) = manga_of_folder(n) {
        let sep = " - "@;
        let i = first_occurrence(n, sep)->0;
        assert(is_first_occurrence(n, sep, i));
        assert(n.subrange(i, i + sep.len()) == sep);
        assert(n =~= n.take(i) + sep + n.skip(i + sep.len()));
    }
}

proof fn lemma_listed_once_prefix(
    entries: Seq<(Seq<char>, bool)>,
    id: Seq<char>,
    name: Seq<char>,
    p: int,
    t: int,
)
    requires
        manga_of_folder(folder_name(id, name)) == Some((id, name)),
        0 <= p < entries.len(),
        entries[p] == (folder_name(id, name), true),
        forall|i: int, j: int|
            0 <= i < entries.len() && 0 <= j < entries.len() && i != j ==> #[trigger] entries[i].0
                != #[trigger] entries[j].0,
        0 <= t <= entries.len(),
    ensures
        occurrences(mangas_in(entries.take(t)), (id, name)) == (if p < t {
            1nat
        } else {
            0nat
        }),
    decreases t,
{
    let m = (id, name);
    if t == 0 {
        assert(entries.take(0) =~= Seq::<(Seq<char>, bool)>::empty());
    } else {
        lemma_listed_once_prefix(entries, id, name, p, t - 1);
        let prefix = entries.take(t);
        assert(prefix.drop_last() =~= entries.take(t - 1));
        assert(prefix.last() == entries[t - 1]);
        let rest = mangas_in(entries.take(t - 1));
        let e = entries[t - 1];
        lemma_manga_of_folder_name(e.0);
        match manga_of_folder(e.0) {
            Some(found) => {
                if e.1 {
                    assert(rest.push(found).drop_last() =~= rest);
                    if t - 1 != p && found == m {
                        assert(e.0 == entries[p].0);
                    }
                }
            },
            None => {
                assert(t - 1 != p);
            },
        }
    }
}

/// A manga that `add_manga` adds is listed by `get_mangas` exactly once,
/// with the id and the name it was added with, wherever its folder stands
/// among the entries of the library, provided no two entries share a name
/// and the id leads to no earlier ` - ` (as in
/// `lemma_folder_name_round_trip`).
pub proof fn lemma_added_manga_is_listed(
    entries: Seq<(Seq<char>, bool)>,
    id: Seq<char>,
    name: Seq<char>,
    p: int,
)
    requires
        !contains_pattern(id + " -"@, " - "@),
        0 <= p < entries.len(),
        entries[p] == (folder_name(id, name), true),
        forall|i: int, j: int|
            0 <= i < entries.len() && 0 <= j < entries.len() && i != j ==> #[trigger] entries[i].0
                != #[trigger] entries[j].0,
    ensures
        occurrences(mangas_in(entries), (id, name)) == 1,
{
    lemma_folder_name_round_trip(id, name);
    lemma_listed_once_prefix(entries, id, name, p, entries.len() as int);
    assert(entries.take(entries.len() as int) =~= entries);
}

} // verus!
