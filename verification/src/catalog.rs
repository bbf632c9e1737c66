//! Filling the collection of formats: identifiers from file paths, inserts
//! from the metadata kept beside an image.

use vstd::prelude::*;
use vstd::string::StringExecFns;
use crate::geometry::Point;
use crate::repository::InsertArea;
use crate::repository::MemeFormat;

verus! {

/// The position of the first dot in a text.
pub open spec fn first_dot(text: Seq<char>) -> Option<int>
    decreases text.len(),
{
    if text.len() == 0 {
        None
    } else {
        match first_dot(text.drop_last()) {
            Some(i) => Some(i),
            None => if text.last() == '.' {
                Some(text.len() - 1)
            } else {
                None
            },
        }
    }
}

/// A file name up to its first dot; the whole name where it has none.
pub open spec fn stem_of(file_name: Seq<char>) -> Seq<char> {
    match first_dot(file_name) {
        Some(i) => file_name.subrange(0, i),
        None => file_name,
    }
}

/// The first dot of a text lies in the text, and nothing before it is a dot.
pub proof fn lemma_first_dot(text: Seq<char>)
    ensures
        first_dot(text) matches Some(i) ==> 0 <= i < text.len() && text[i] == '.' && forall|j: int|
            0 <= j < i ==> text[j] != '.',
        first_dot(text) is None ==> forall|j: int| 0 <= j < text.len() ==> text[j] != '.',
    decreases text.len(),
{
    if text.len() > 0 {
        lemma_first_dot(text.drop_last());
        assert forall|j: int| 0 <= j < text.len() - 1 implies text.drop_last()[j] == text[j] by {}
    }
}

/// The first dot of the beginning of a text is the first dot of the text.
pub proof fn lemma_first_dot_of_prefix(text: Seq<char>, n: int)
    requires
        0 <= n <= text.len(),
        first_dot(text.take(n)) is Some,
    ensures
        first_dot(text) == first_dot(text.take(n)),
    decreases text.len(),
{
    if n < text.len() {
        assert(text.drop_last().take(n) =~= text.take(n));
        lemma_first_dot_of_prefix(text.drop_last(), n);
    } else {
        assert(text.take(n) =~= text);
    }
}

/// Finds the first dot of a text, counted in characters.
pub fn find_dot(text: &str) -> (position: Option<usize>)
    ensures
        match position {
            Some(i) => first_dot(text@) == Some(i as int),
            None => first_dot(text@) is None,
        },
{
    let length: usize = text.unicode_len();
    let mut k: usize = 0;
    for c in it: text.chars()
        invariant
            it.seq() == text@,
            length == text@.len(),
            k == it.index(),
            first_dot(text@.take(k as int)) is None,
    {
        proof {
            let upto = text@.take(k + 1);
            assert(upto.drop_last() =~= text@.take(k as int));
            assert(upto.last() == c);
        }
        if c == '.' {
            proof {
                lemma_first_dot_of_prefix(text@, k + 1);
            }
            return Some(k);
        }
        k += 1;
    }
    proof {
        assert(text@.take(k as int) =~= text@);
    }
    None
}

/// The parts of an identifier: the components of a path, the first one
/// replaced by the name of the collection, the last one cut at its first
/// dot.
pub open spec fn id_part(name: Seq<char>, components: Seq<String>, i: int) -> Seq<char> {
    let part = if i == 0 {
        name
    } else {
        components[i]@
    };
    if i == components.len() - 1 {
        stem_of(part)
    } else {
        part
    }
}

/// The first `count` parts of an identifier, joined by dots.
pub open spec fn joined_parts(name: Seq<char>, components: Seq<String>, count: nat) -> Seq<char>
    decreases count,
{
    if count == 0 {
        Seq::empty()
    } else if count == 1 {
        id_part(name, components, 0)
    } else {
        joined_parts(name, components, (count - 1) as nat) + "."@ + id_part(
            name,
            components,
            count - 1,
        )
    }
}

/// The identifier of the format whose image lies at a path: the components
/// of the path joined by dots, with the name of the collection in place of
/// the first component, and without the extension of the file.
pub open spec fn memeid_text(name: Seq<char>, components: Seq<String>) -> Seq<char> {
    joined_parts(name, components, components.len())
}

/// Cuts a file name at its first dot.
pub fn stem(file_name: &str) -> (cut: &str)
    ensures
        cut@ == stem_of(file_name@),
{
    match find_dot(file_name) {
        Some(i) => {
            proof {
                lemma_first_dot(file_name@);
            }
            file_name.substring_char(0, i)
        },
        None => file_name,
    }
}

/// Derives the identifier of a format from the path of its image, given as
/// the components of the path. A path without components gives the empty
/// identifier.
pub fn memeid_of(name: &str, components: &Vec<String>) -> (memeid: String)
    ensures
        memeid@ == memeid_text(name@, components@),
{
    let mut memeid: String = String::new();
    let n: usize = components.len();
    let mut k: usize = 0;
    while k < n
        invariant
            n == components@.len(),
            k <= n,
            memeid@ == joined_parts(name@, components@, k as nat),
        decreases n - k,
    {
        let ghost before = memeid@;
        let part: &str = if k == 0 {
            name
        } else {
            components[k].as_str()
        };
        let piece: &str = if k + 1 == n {
            stem(part)
        } else {
            part
        };
        assert(piece@ == id_part(name@, components@, k as int));
        if k > 0 {
            memeid.append(".");
        }
        memeid.append(piece);
        proof {
            if k == 0 {
                assert(memeid@ =~= piece@);
            } else {
                assert(memeid@ =~= before + "."@ + piece@);
            }
        }
        k += 1;
    }
    memeid
}

/// One corner of an insert as the metadata gives it: a list whose entries
/// are whole numbers from zero up, or something else (`None`); or no list
/// at all.
#[derive(Clone, Debug, PartialEq, Eq)]
pub enum RawCorner {
    Numbers(Vec<Option<u64>>),
    Other,
}

/// The corners of an insert as the metadata gives them.
#[derive(Clone, Debug, PartialEq, Eq)]
pub enum RawCoords {
    /// The insert has no entry for its corners.
    Missing,
    /// The entry is no list.
    Other,
    /// The entry is a list.
    Corners(Vec<RawCorner>),
}

/// One insert as the metadata gives it.
#[derive(Clone, Debug, PartialEq, Eq)]
pub struct RawInsert {
    pub name: String,
    pub coords: RawCoords,
}

/// The inserts of a format as the metadata gives them.
#[derive(Clone, Debug, PartialEq, Eq)]
pub enum RawInserts {
    /// The metadata has no entry for inserts.
    Missing,
    /// The entry does not map names to inserts.
    Other,
    /// The inserts, in the order of the metadata.
    Entries(Vec<RawInsert>),
}

/// What is wrong with the metadata of a format.
#[derive(Clone, Copy, Debug, PartialEq, Eq, Structural)]
pub enum MetadataError {
    NoInserts,
    InsertsNotObject,
    NoCoords,
    CoordsNotArray,
    NotCoordsPair,
    FirstCornerNotArray,
    SecondCornerNotArray,
    CornerTooShort,
}

/// A coordinate from an entry of the metadata: the number, cut to 32 bits;
/// zero for an entry that is no whole number from zero up.
pub open spec fn coordinate_of(entry: Option<u64>) -> u32 {
    match entry {
        Some(number) => number as u32,
        None => 0,
    }
}

/// The corner that the first two entries of a list give.
pub open spec fn corner_of(entries: Seq<Option<u64>>) -> Point {
    Point { x: coordinate_of(entries[0]), y: coordinate_of(entries[1]) }
}

/// The insert that one entry of the metadata describes, or what is wrong
/// with the entry. The corners have to be a pair of lists with two numbers
/// each; what they span is not looked at.
pub open spec fn insert_from(raw: RawInsert) -> Result<InsertArea, MetadataError> {
    match raw.coords {
        RawCoords::Missing => Err(MetadataError::NoCoords),
        RawCoords::Other => Err(MetadataError::CoordsNotArray),
        RawCoords::Corners(corners) => if corners@.len() != 2 {
            Err(MetadataError::NotCoordsPair)
        } else {
            match (corners@[0], corners@[1]) {
                (RawCorner::Other, _) => Err(MetadataError::FirstCornerNotArray),
                (RawCorner::Numbers(_), RawCorner::Other) => Err(
                    MetadataError::SecondCornerNotArray,
                ),
                (RawCorner::Numbers(first), RawCorner::Numbers(second)) => if first@.len() < 2
                    || second@.len() < 2 {
                    Err(MetadataError::CornerTooShort)
                } else {
                    Ok(
                        InsertArea {
                            name: raw.name,
                            top_left: corner_of(first@),
                            bottom_right: corner_of(second@),
                        },
                    )
                },
            }
        },
    }
}

/// The position of the first entry that describes no insert.
pub open spec fn first_bad_entry(entries: Seq<RawInsert>) -> Option<int>
    decreases entries.len(),
{
    if entries.len() == 0 {
        None
    } else {
        match first_bad_entry(entries.drop_last()) {
            Some(i) => Some(i),
            None => if insert_from(entries.last()) is Err {
                Some(entries.len() - 1)
            } else {
                None
            },
        }
    }
}

/// The inserts that the entries of a list describe, one for each entry, in
/// the order of the list.
pub open spec fn described_inserts(entries: Seq<RawInsert>) -> Seq<InsertArea> {
    Seq::new(entries.len(), |k: int| insert_from(entries[k])->Ok_0)
}

/// What the metadata of a format says of its inserts, or what is wrong
/// with it: the error of the first entry that describes no insert.
pub open spec fn inserts_of(raw: RawInserts) -> Result<Seq<InsertArea>, MetadataError> {
    match raw {
        RawInserts::Missing => Err(MetadataError::NoInserts),
        RawInserts::Other => Err(MetadataError::InsertsNotObject),
        RawInserts::Entries(entries) => match first_bad_entry(entries@) {
            Some(i) => Err(insert_from(entries@[i])->Err_0),
            None => Ok(described_inserts(entries@)),
        },
    }
}

/// The inserts that a format takes from its metadata: those that the
/// metadata describes, and none where there is no metadata or it cannot be
/// read.
pub open spec fn inserts_taken(metadata: Option<RawInserts>) -> Seq<InsertArea> {
    match metadata {
        Some(raw) => match inserts_of(raw) {
            Ok(areas) => areas,
            Err(_) => Seq::empty(),
        },
        None => Seq::empty(),
    }
}

/// Where no entry of a list is bad, every entry describes an insert.
pub proof fn lemma_no_bad_entry(entries: Seq<RawInsert>)
    requires
        first_bad_entry(entries) is None,
    ensures
        forall|k: int| 0 <= k < entries.len() ==> insert_from(#[trigger] entries[k]) is Ok,
    decreases entries.len(),
{
    if entries.len() > 0 {
        lemma_no_bad_entry(entries.drop_last());
        assert forall|k: int| 0 <= k < entries.len() implies insert_from(
            #[trigger] entries[k],
        ) is Ok by {
            if k < entries.len() - 1 {
                assert(entries.drop_last()[k] == entries[k]);
            }
        }
    }
}

/// The first bad entry of the beginning of a list is the first bad entry
/// of the list.
pub proof fn lemma_first_bad_entry_of_prefix(entries: Seq<RawInsert>, n: int)
    requires
        0 <= n <= entries.len(),
        first_bad_entry(entries.take(n)) is Some,
    ensures
        first_bad_entry(entries) == first_bad_entry(entries.take(n)),
    decreases entries.len(),
{
    if n < entries.len() {
        assert(entries.drop_last().take(n) =~= entries.take(n));
        lemma_first_bad_entry_of_prefix(entries.drop_last(), n);
    } else {
        assert(entries.take(n) =~= entries);
    }
}

/// Turns an entry of the metadata into a coordinate.
pub fn coordinate(entry: Option<u64>) -> (value: u32)
    ensures
        value == coordinate_of(entry),
{
    match entry {
        Some(number) => #[verifier::truncate]
        (number as u32),
        None => 0,
    }
}

/// Turns one entry of the metadata into an insert.
pub fn read_insert(raw: &RawInsert) -> (read: Result<InsertArea, MetadataError>)
    ensures
        read == insert_from(*raw),
{
    match &raw.coords {
        RawCoords::Missing => Err(MetadataError::NoCoords),
        RawCoords::Other => Err(MetadataError::CoordsNotArray),
        RawCoords::Corners(corners) => {
            if corners.len() != 2 {
                return Err(MetadataError::NotCoordsPair);
            }
            let first: &Vec<Option<u64>> = match &corners[0] {
                RawCorner::Numbers(entries) => entries,
                RawCorner::Other => {
                    return Err(MetadataError::FirstCornerNotArray);
                },
            };
            let second: &Vec<Option<u64>> = match &corners[1] {
                RawCorner::Numbers(entries) => entries,
                RawCorner::Other => {
                    return Err(MetadataError::SecondCornerNotArray);
                },
            };
            if first.len() < 2 || second.len() < 2 {
                return Err(MetadataError::CornerTooShort);
            }
            Ok(
                InsertArea {
                    name: raw.name.clone(),
                    top_left: Point { x: coordinate(first[0]), y: coordinate(first[1]) },
                    bottom_right: Point { x: coordinate(second[0]), y: coordinate(second[1]) },
                },
            )
        },
    }
}

/// Turns the inserts of the metadata into the inserts of a format, one
/// for each entry. The first entry that is not a pair of corners fails the
/// whole list, with what is wrong with it.
pub fn read_inserts(raw: &RawInserts) -> (read: Result<Vec<InsertArea>, MetadataError>)
    ensures
        match read {
            Ok(areas) => inserts_of(*raw) == Ok::<Seq<InsertArea>, MetadataError>(areas@),
            Err(e) => inserts_of(*raw) == Err::<Seq<InsertArea>, MetadataError>(e),
        },
{
    let entries: &Vec<RawInsert> = match raw {
        RawInserts::Missing => {
            return Err(MetadataError::NoInserts);
        },
        RawInserts::Other => {
            return Err(MetadataError::InsertsNotObject);
        },
        RawInserts::Entries(entries) => entries,
    };
    let mut areas: Vec<InsertArea> = Vec::new();
    let mut k: usize = 0;
    while k < entries.len()
        invariant
            *raw matches RawInserts::Entries(list) && list == *entries,
            k <= entries@.len(),
            first_bad_entry(entries@.take(k as int)) is None,
            areas@.len() == k,
            forall|j: int|
                0 <= j < k ==> insert_from(entries@[j]) == Ok::<InsertArea, MetadataError>(
                    #[trigger] areas@[j],
                ),
        decreases entries@.len() - k,
    {
        proof {
            let upto = entries@.take(k + 1);
            assert(upto.drop_last() =~= entries@.take(k as int));
            assert(upto.last() == entries@[k as int]);
        }
        match read_insert(&entries[k]) {
            Ok(area) => {
                areas.push(area);
            },
            Err(e) => {
                proof {
                    let upto = entries@.take(k + 1);
                    assert(upto.drop_last() =~= entries@.take(k as int));
                    assert(insert_from(upto.last()) is Err);
                    assert(first_bad_entry(upto) == Some(k as int));
                    lemma_first_bad_entry_of_prefix(entries@, k + 1);
                }
                return Err(e);
            },
        }
        k += 1;
    }
    proof {
        assert(entries@.take(k as int) =~= entries@);
        assert(areas@ =~= described_inserts(entries@));
    }
    Ok(areas)
}

/// Makes the format of an image from its identifier, its path and the
/// metadata kept beside it, if there is any. Metadata that cannot be read
/// gives a format without inserts.
pub fn format_from_metadata(memeid: String, image_path: String, metadata: Option<&RawInserts>) -> (format:
    MemeFormat)
    ensures
        format.memeid == memeid,
        format.image_path == image_path,
        format.inserts@ == inserts_taken(
            match metadata {
                Some(raw) => Some(*raw),
                None => None,
            },
        ),
{
    let inserts: Vec<InsertArea> = match metadata {
        Some(raw) => match read_inserts(raw) {
            Ok(areas) => areas,
            Err(_) => Vec::new(),
        },
        None => Vec::new(),
    };
    MemeFormat { memeid, image_path, inserts }
}

} // verus!
