//! Keeping a manga in sync: which chapters to fetch, and the `order.txt`
//! that records them in reading order.
use vstd::prelude::*;
use crate::structs::{results_view, SearchResult};
use crate::text::{append_char, append_str, join_terminated, split_char};

verus! {

/// The name of the file, in a manga's folder, that lists its chapters in
/// reading order, one id per line.
pub const ORDER_FILE: &'static str = "order.txt";

/// The position of the last chapter of `chapters` whose id is `start`; zero
/// when no chapter has that id or no start is given.
pub open spec fn start_index(chapters: Seq<(Seq<char>, Seq<char>)>, start: Option<Seq<char>>) -> int
    decreases chapters.len(),
{
    match start {
        None => 0,
        Some(s) => if chapters.len() == 0 {
            0
        } else if chapters.last().1 == s {
            chapters.len() - 1
        } else {
            start_index(chapters.drop_last(), start)
        },
    }
}

/// The chapters to keep in sync: those the site lists (newest first),
/// turned into reading order, from the starting chapter on.
pub open spec fn chapters_to_sync(listed: Seq<(Seq<char>, Seq<char>)>, start: Option<Seq<char>>) -> Seq<(Seq<char>, Seq<char>)> {
    let ordered = listed.reverse();
    ordered.skip(start_index(ordered, start))
}

/// The ids of a list of chapters.
pub open spec fn ids_of(chapters: Seq<(Seq<char>, Seq<char>)>) -> Seq<Seq<char>> {
    chapters.map_values(|c: (Seq<char>, Seq<char>)| c.1)
}

/// The text of `order.txt` for the given chapters: each id followed by a
/// line break.
pub open spec fn order_text(chapters: Seq<(Seq<char>, Seq<char>)>) -> Seq<char> {
    join_terminated(ids_of(chapters), '\n')
}

proof fn lemma_start_index_bounds(chapters: Seq<(Seq<char>, Seq<char>)>, start: Option<Seq<char>>)
    ensures
        0 <= start_index(chapters, start),
        chapters.len() == 0 ==> start_index(chapters, start) == 0,
        chapters.len() > 0 ==> start_index(chapters, start) < chapters.len(),
    decreases chapters.len(),
{
    if chapters.len() > 0 {
        lemma_start_index_bounds(chapters.drop_last(), start);
    }
}

/// The chapters to keep in sync, given those the site lists (newest first)
/// and the starting chapter, if the library's file names one: reading order,
/// from the last chapter whose id is the starting one on.
pub fn chapters_from_start(chapters: Vec<SearchResult>, start: Option<&str>) -> (res: Vec<SearchResult>)
    ensures
        results_view(res@) == chapters_to_sync(results_view(chapters@), match start {
            Some(s) => Some(s@),
            None => None,
        }),
{
    let ghost listed = results_view(chapters@);
    let ghost wanted = match start {
        Some(s) => Some(s@),
        None => None::<Seq<char>>,
    };
    let mut rest = chapters;
    let mut ordered: Vec<SearchResult> = Vec::new();
    while rest.len() > 0
        invariant
            listed.len() == rest@.len() + ordered@.len(),
            results_view(ordered@) == listed.reverse().take(ordered@.len() as int),
            results_view(rest@) == listed.take(rest@.len() as int),
        decreases rest.len(),
    {
        let ghost before = ordered@;
        let ghost rest_before = rest@;
        let c = rest.pop().unwrap();
        proof {
            assert(results_view(rest_before)[rest_before.len() - 1] == c@);
            assert(listed[rest_before.len() - 1] == c@);
        }
        ordered.push(c);
        proof {
            assert(results_view(ordered@) =~= results_view(before).push(c@));
            assert(listed.reverse().take(ordered@.len() as int) =~= listed.reverse().take(
                before.len() as int,
            ).push(c@));
            assert(results_view(rest@) =~= listed.take(rest@.len() as int));
        }
    }
    assert(results_view(ordered@) =~= listed.reverse());
    let ghost r = listed.reverse();
    let mut starting: usize = 0;
    let mut i: usize = 0;
    while i < ordered.len()
        invariant
            i <= ordered@.len(),
            results_view(ordered@) == r,
            starting as int == start_index(r.take(i as int), wanted),
            wanted == match start {
                Some(s) => Some(s@),
                None => None::<Seq<char>>,
            },
        decreases ordered.len() - i,
    {
        proof {
            assert(r.take(i + 1).drop_last() =~= r.take(i as int));
            assert(r.take(i + 1).last() == ordered@[i as int]@);
        }
        match start {
            Some(s) => {
                if crate::text::same_text(ordered[i].id.as_str(), s) {
                    starting = i;
                }
            },
            None => {},
        }
        i = i + 1;
    }
    assert(r.take(ordered@.len() as int) =~= r);
    proof {
        lemma_start_index_bounds(r, wanted);
    }
    let res = ordered.split_off(starting);
    assert(results_view(res@) =~= r.skip(starting as int));
    res
}

/// What to do after requesting an image of a chapter being synced.
#[derive(Debug, Clone, Copy, PartialEq, Eq, Structural)]
pub enum ImageRequest {
    /// Write the image's file and go on to the next image.
    Save,
    /// Request the same image again.
    Retry,
}

/// After a request for an image: a received image is saved, a failed
/// request is made again until it succeeds.
pub fn after_image_request(succeeded: bool) -> (next: ImageRequest)
    ensures
        next == (if succeeded {
            ImageRequest::Save
        } else {
            ImageRequest::Retry
        }),
{
    if succeeded {
        ImageRequest::Save
    } else {
        ImageRequest::Retry
    }
}

/// The text of `order.txt` for the given chapters, in the order given.
pub fn order_file_contents(chapters: &Vec<SearchResult>) -> (text: String)
    ensures
        text@ == order_text(results_view(chapters@)),
{
    let ghost ids = ids_of(results_view(chapters@));
    let mut text = String::new();
    let mut k: usize = 0;
    while k < chapters.len()
        invariant
            k <= chapters@.len(),
            ids == ids_of(results_view(chapters@)),
            ids.len() == chapters@.len(),
            text@ == join_terminated(ids.take(k as int), '\n'),
        decreases chapters.len() - k,
    {
        let ghost before = text@;
        append_str(&mut text, chapters[k].id.as_str());
        append_char(&mut text, '\n');
        proof {
            assert(ids[k as int] == chapters@[k as int].id@);
            lemma_join_terminated_push(ids.take(k as int), ids[k as int], '\n');
            assert(ids.take(k + 1) =~= ids.take(k as int).push(ids[k as int]));
        }
        k = k + 1;
    }
    assert(ids.take(chapters@.len() as int) =~= ids);
    text
}

/// Joining one more piece appends it and its terminator.
pub proof fn lemma_join_terminated_push(pieces: Seq<Seq<char>>, last: Seq<char>, c: char)
    ensures
        join_terminated(pieces.push(last), c) == join_terminated(pieces, c) + last.push(c),
    decreases pieces.len(),
{
    if pieces.len() == 0 {
        assert(pieces.push(last).drop_first() =~= Seq::<Seq<char>>::empty());
        assert(join_terminated(Seq::<Seq<char>>::empty(), c) == Seq::<char>::empty());
        assert(pieces.push(last)[0] == last);
        assert(last.push(c) + Seq::<char>::empty() =~= last.push(c));
        assert(join_terminated(pieces, c) == Seq::<char>::empty());
        assert(join_terminated(pieces, c) + last.push(c) =~= last.push(c));
    } else {
        lemma_join_terminated_push(pieces.drop_first(), last, c);
        assert(pieces.push(last).drop_first() =~= pieces.drop_first().push(last));
        assert(join_terminated(pieces.push(last), c) =~= join_terminated(pieces, c) + last.push(
            c,
        ));
    }
}

/// What `order.txt` records is read back line by line: splitting its text
/// at line breaks gives the ids in order, then the empty text after the last
/// line break, provided no id holds a line break.
pub proof fn lemma_order_file_read_back(chapters: Seq<(Seq<char>, Seq<char>)>)
    requires
        forall|i: int, k: int|
            0 <= i < chapters.len() && 0 <= k < chapters[i].1.len() ==> #[trigger] chapters[i].1[k]
                != '\n',
    ensures
        split_char(order_text(chapters), '\n') == ids_of(chapters).push(Seq::<char>::empty()),
{
    let ids = ids_of(chapters);
    assert forall|p: int, k: int| 0 <= p < ids.len() && 0 <= k < ids[p].len() implies #[trigger] ids[p][k]
        != '\n' by {
        assert(ids[p] == chapters[p].1);
    }
    crate::text::lemma_split_join_terminated(ids, '\n');
}

proof fn lemma_start_index_matches(chapters: Seq<(Seq<char>, Seq<char>)>, s: Seq<char>, i: int)
    requires
        0 <= i < chapters.len(),
        chapters[i].1 == s,
    ensures
        i <= start_index(chapters, Some(s)) < chapters.len(),
        chapters[start_index(chapters, Some(s))].1 == s,
    decreases chapters.len(),
{
    if chapters.last().1 != s {
        lemma_start_index_matches(chapters.drop_last(), s, i);
    }
}

/// Syncing starts at the starting chapter: where the site lists a chapter
/// with the starting id, the chapters to keep in sync begin with the last
/// such chapter in reading order and run to the newest; without a starting
/// chapter, all chapters are kept, oldest first.
pub proof fn lemma_sync_starts_at_start(listed: Seq<(Seq<char>, Seq<char>)>, start: Option<Seq<char>>)
    ensures
        start is None ==> chapters_to_sync(listed, start) == listed.reverse(),
        (start matches Some(s) && exists|i: int| 0 <= i < listed.len() && #[trigger] listed[i].1 == s)
            ==> {
            &&& chapters_to_sync(listed, start).len() > 0
            &&& chapters_to_sync(listed, start)[0].1 == start->0
            &&& forall|k: int|
                1 <= k < chapters_to_sync(listed, start).len() ==> #[trigger] chapters_to_sync(
                    listed,
                    start,
                )[k].1 != start->0
        },
{
    let r = listed.reverse();
    match start {
        None => {
            assert(r.skip(0) =~= r);
        },
        Some(s) => {
            if exists|i: int| 0 <= i < listed.len() && #[trigger] listed[i].1 == s {
                let i = choose|i: int| 0 <= i < listed.len() && #[trigger] listed[i].1 == s;
                let j = listed.len() - 1 - i;
                assert(r[j] == listed[i]);
                lemma_start_index_matches(r, s, j);
                let k0 = start_index(r, start);
                assert forall|k: int| 1 <= k < chapters_to_sync(listed, start).len() implies #[trigger] chapters_to_sync(
                    listed,
                    start,
                )[k].1 != s by {
                    lemma_start_index_is_last(r, s, k0 + k);
                }
            }
        },
    }
}

proof fn lemma_start_index_is_last(chapters: Seq<(Seq<char>, Seq<char>)>, s: Seq<char>, m: int)
    requires
        start_index(chapters, Some(s)) < m < chapters.len(),
    ensures
        chapters[m].1 != s,
    decreases chapters.len(),
{
    lemma_start_index_bounds(chapters, Some(s));
    if chapters.last().1 != s {
        if m < chapters.len() - 1 {
            lemma_start_index_is_last(chapters.drop_last(), s, m);
            assert(chapters.drop_last()[m] == chapters[m]);
        }
    }
}

proof fn lemma_start_index_absent(chapters: Seq<(Seq<char>, Seq<char>)>, s: Seq<char>)
    requires
        forall|j: int| 0 <= j < chapters.len() ==> #[trigger] chapters[j].1 != s,
    ensures
        start_index(chapters, Some(s)) == 0,
    decreases chapters.len(),
{
    if chapters.len() > 0 {
        assert(chapters.last().1 != s);
        assert forall|j: int| 0 <= j < chapters.drop_last().len() implies #[trigger] chapters.drop_last()[j].1
            != s by {
            assert(chapters.drop_last()[j] == chapters[j]);
        }
        lemma_start_index_absent(chapters.drop_last(), s);
    }
}

/// The chapters to sync run in reading order from the starting chapter to
/// the newest. Where `i` is the last position, in reading order (the site's
/// list reversed), of a chapter with the starting id, they are the chapters
/// from position `i` on: `listed.len() - i` of them, the `k`-th being the
/// chapter at position `i + k`, the last being the newest (`listed[0]`).
pub proof fn lemma_sync_runs_from_start_to_newest(
    listed: Seq<(Seq<char>, Seq<char>)>,
    s: Seq<char>,
    i: int,
)
    requires
        0 <= i < listed.len(),
        listed.reverse()[i].1 == s,
        forall|j: int| i < j < listed.len() ==> #[trigger] listed.reverse()[j].1 != s,
    ensures
        chapters_to_sync(listed, Some(s)).len() == listed.len() - i,
        forall|k: int|
            0 <= k < listed.len() - i ==> #[trigger] chapters_to_sync(listed, Some(s))[k]
                == listed.reverse()[i + k],
        chapters_to_sync(listed, Some(s)).last() == listed[0],
{
    let r = listed.reverse();
    lemma_start_index_matches(r, s, i);
    let k0 = start_index(r, Some(s));
    if k0 > i {
        assert(r[k0].1 != s);
    }
    assert(k0 == i);
    assert(r[listed.len() - 1] == listed[0]);
}

/// Without a starting chapter, or with one that the site does not list,
/// every listed chapter is synced, in reading order (oldest first).
pub proof fn lemma_sync_all_without_start(listed: Seq<(Seq<char>, Seq<char>)>, start: Option<Seq<char>>)
    requires
        start matches Some(s) ==> forall|j: int| 0 <= j < listed.len() ==> #[trigger] listed[j].1 != s,
    ensures
        chapters_to_sync(listed, start).len() == listed.len(),
        forall|k: int|
            0 <= k < listed.len() ==> #[trigger] chapters_to_sync(listed, start)[k] == listed[listed.len() - 1 - k],
{
    let r = listed.reverse();
    if let Some(s) = start {
        assert forall|j: int| 0 <= j < r.len() implies #[trigger] r[j].1 != s by {
            assert(r[j] == listed[listed.len() - 1 - j]);
        }
        lemma_start_index_absent(r, s);
    }
    assert(r.skip(0) =~= r);
}

} // verus!
