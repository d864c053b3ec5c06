//! The library's `mangalike.toml`: lines `MANGA_ID=STARTING_CHAPTER` that say
//! from which chapter on a manga is kept in sync.
use vstd::prelude::*;
use vstd::utf8::{decode_utf8, encode_utf8, encode_utf8_decode_utf8, valid_utf8};
use crate::text::{
    chars_of, owned, split_char, split_char_bounds, split_once, split_once_chars, string_from_chars,
};

verus! {

/// The name of the file, in a library's folder, that makes it a library.
pub const LIBRARY_FILE: &'static str = "mangalike.toml";

#[verifier::external_type_specification]
#[verifier::external_body]
pub struct ExFromUtf8Error(std::string::FromUtf8Error);

/// Why the starting chapters could not be read.
#[derive(Debug, Clone, Copy, PartialEq, Eq, Structural)]
pub enum ConfigError {
    /// The file is not UTF-8 text.
    NotUtf8,
}

/// The starting chapter that the lines give for manga `id`: the value of the
/// first line whose key is `id`. The search stops, finding nothing, at the
/// first line that has no `=`.
pub open spec fn starting_chapter_in(lines: Seq<Seq<char>>, id: Seq<char>) -> Option<Seq<char>>
    decreases lines.len(),
{
    if lines.len() == 0 {
        None
    } else {
        match split_once(lines[0], seq!['=']) {
            None => None,
            Some((key, value)) => if key == id {
                Some(value)
            } else {
                starting_chapter_in(lines.drop_first(), id)
            },
        }
    }
}

/// The starting chapter that the text of the file gives for manga `id`.
pub open spec fn starting_chapter(config: Seq<char>, id: Seq<char>) -> Option<Seq<char>> {
    starting_chapter_in(split_char(config, '\n'), id)
}

/// `String::from_utf8`: succeeds exactly on valid UTF-8, and the text then
/// has those bytes as its UTF-8 encoding.
#[verifier::external_body]
fn string_from_utf8(bytes: Vec<u8>) -> (res: Result<String, std::string::FromUtf8Error>)
    ensures
        res is Ok <==> valid_utf8(bytes@),
        res matches Ok(s) ==> encode_utf8(s@) == bytes@,
{
    String::from_utf8(bytes)
}

/// The starting chapter that `config`, the text of the library's file, gives
/// for manga `manga_id`.
pub fn starting_chapter_of(config: &str, manga_id: &str) -> (res: Option<String>)
    ensures
        match res {
            Some(c) => starting_chapter(config@, manga_id@) == Some(c@),
            None => starting_chapter(config@, manga_id@).is_none(),
        },
{
    let chars = chars_of(config);
    let lines = split_char_bounds(chars.as_slice(), '\n');
    let id = owned(manga_id);
    let eq = chars_of("=");
    proof {
        reveal_strlit("=");
        assert("="@ =~= seq!['=']);
    }
    let ghost all = split_char(config@, '\n');
    let mut k: usize = 0;
    assert(all.skip(0) =~= all);
    while k < lines.len()
        invariant
            k <= lines@.len(),
            lines@.len() == all.len(),
            all == split_char(config@, '\n'),
            chars@ == config@,
            eq@ == seq!['='],
            id@ == manga_id@,
            forall|m: int|
                0 <= m < lines@.len() ==> {
                    &&& (#[trigger] lines@[m]).0 <= lines@[m].1 <= chars@.len()
                    &&& chars@.subrange(lines@[m].0 as int, lines@[m].1 as int) == all[m]
                },
            starting_chapter_in(all, manga_id@) == starting_chapter_in(all.skip(k as int), manga_id@),
        decreases lines.len() - k,
    {
        let (a, b) = lines[k];
        let line = string_from_chars(chars.as_slice(), a, b);
        let line_chars = chars_of(line.as_str());
        let ghost rest = all.skip(k as int);
        assert(rest[0] == all[k as int]);
        assert(rest.drop_first() =~= all.skip(k + 1));
        match split_once_chars(line_chars.as_slice(), eq.as_slice()) {
            None => {
                return None;
            },
            Some((key, value)) => {
                if key == id {
                    return Some(value);
                }
            },
        }
        k = k + 1;
    }
    assert(all.skip(k as int) =~= Seq::<Seq<char>>::empty());
    None
}

/// The starting chapter that the bytes of the library's file give for manga
/// `manga_id`; an error where they are not UTF-8.
pub fn get_manga_starting_chapter(manga_id: &str, data: Vec<u8>) -> (res: Result<Option<String>, ConfigError>)
    ensures
        match res {
            Ok(Some(c)) => valid_utf8(data@) && starting_chapter(decode_utf8(data@), manga_id@) == Some(c@),
            Ok(None) => valid_utf8(data@) && starting_chapter(decode_utf8(data@), manga_id@).is_none(),
            Err(e) => e == ConfigError::NotUtf8 && !valid_utf8(data@),
        },
{
    let ghost bytes = data@;
    match string_from_utf8(data) {
        Ok(text) => {
            proof {
                encode_utf8_decode_utf8(text@);
            }
            Ok(starting_chapter_of(text.as_str(), manga_id))
        },
        Err(_) => Err(ConfigError::NotUtf8),
    }
}

/// A line `ID=CHAPTER` gives `CHAPTER` as the starting chapter of manga `ID`
/// when no earlier line mentions it, provided the id holds no `=` and the
/// chapter no line break.
pub proof fn lemma_entry_found(id: Seq<char>, chapter: Seq<char>, rest: Seq<char>)
    requires
        forall|i: int| 0 <= i < id.len() ==> id[i] != '=' && id[i] != '\n',
        forall|i: int| 0 <= i < chapter.len() ==> chapter[i] != '\n',
    ensures
        starting_chapter((id.push('=') + chapter).push('\n') + rest, id) == Some(chapter),
{
    let line = id.push('=') + chapter;
    assert forall|k: int| 0 <= k < line.len() implies line[k] != '\n' by {
        if k < id.len() {
            assert(line[k] == id[k]);
        } else if k > id.len() {
            assert(line[k] == chapter[k - id.len() - 1]);
        }
    }
    crate::text::lemma_split_char_cons(line, '\n', rest);
    let s = line;
    let i = id.len() as int;
    assert forall|j: int| 0 <= j < i implies !crate::text::occurs_at(s, seq!['='], j) by {
        crate::text::lemma_char_occurs_at(s, '=', j);
        assert(s[j] == id[j]);
    }
    crate::text::lemma_char_occurs_at(s, '=', i);
    crate::text::lemma_first_occurrence_is(s, seq!['='], i);
    assert(s.take(i) =~= id);
    assert(s.skip(i + 1) =~= chapter);
}

} // verus!
