//! The formats that can be captioned, found by their identifiers.

use vstd::prelude::*;
use crate::geometry::Point;
use crate::geometry::Rectangle;
use crate::sorting::ascending;
use crate::sorting::holds;
use crate::sorting::in_order;

verus! {

/// A named rectangle of a format, given by its top-left and bottom-right
/// corners.
#[derive(Clone, Debug, PartialEq, Eq)]
pub struct InsertArea {
    pub name: String,
    pub top_left: Point,
    pub bottom_right: Point,
}

/// A base image with its named inserts.
#[derive(Clone, Debug, PartialEq, Eq)]
pub struct MemeFormat {
    /// The fully qualified identifier of the format.
    pub memeid: String,
    /// Where the base image is kept.
    pub image_path: String,
    /// The inserts of the format. Where two carry the same name, the later
    /// one counts.
    pub inserts: Vec<InsertArea>,
}

/// A collection of formats under one top-level name.
#[derive(Clone, Debug, PartialEq, Eq)]
pub struct FormatRepo {
    /// The top-level name of the collection.
    pub name: String,
    /// The formats. Where two carry the same identifier, the later one counts.
    pub formats: Vec<MemeFormat>,
}

impl InsertArea {
    /// Whether the corners span a rectangle of positive extent. An insert
    /// whose corners do not has no room for a text.
    pub open spec fn spans_area(&self) -> bool {
        self.top_left.x < self.bottom_right.x && self.top_left.y < self.bottom_right.y
    }

    /// The rectangle between the two corners.
    pub open spec fn area(&self) -> Rectangle {
        Rectangle::spanned(self.top_left, self.bottom_right)
    }

    /// Tells whether the corners span a rectangle of positive extent.
    pub fn has_area(&self) -> (ok: bool)
        ensures
            ok == self.spans_area(),
    {
        self.top_left.x < self.bottom_right.x && self.top_left.y < self.bottom_right.y
    }

    /// Computes the rectangle between the two corners.
    pub fn rectangle(&self) -> (r: Rectangle)
        requires
            self.spans_area(),
        ensures
            r == self.area(),
            r.wf(),
    {
        Rectangle::from_corners(self.top_left, self.bottom_right)
    }
}

/// The position of the last insert called `name`, if there is one.
pub open spec fn insert_position(inserts: Seq<InsertArea>, name: Seq<char>) -> Option<int>
    decreases inserts.len(),
{
    if inserts.len() == 0 {
        None
    } else if inserts.last().name@ == name {
        Some(inserts.len() - 1)
    } else {
        insert_position(inserts.drop_last(), name)
    }
}

/// The position of the last format with the identifier `id`, if there is one.
pub open spec fn format_position(formats: Seq<MemeFormat>, id: Seq<char>) -> Option<int>
    decreases formats.len(),
{
    if formats.len() == 0 {
        None
    } else if formats.last().memeid@ == id {
        Some(formats.len() - 1)
    } else {
        format_position(formats.drop_last(), id)
    }
}

/// A position that `insert_position` reports lies in the list, and the
/// insert there carries the name that was asked for.
pub proof fn lemma_insert_position(inserts: Seq<InsertArea>, name: Seq<char>)
    ensures
        insert_position(inserts, name) matches Some(k) ==> 0 <= k < inserts.len()
            && inserts[k].name@ == name,
        insert_position(inserts, name) is None ==> forall|k: int|
            0 <= k < inserts.len() ==> (#[trigger] inserts[k]).name@ != name,
    decreases inserts.len(),
{
    if inserts.len() > 0 && inserts.last().name@ != name {
        lemma_insert_position(inserts.drop_last(), name);
        if insert_position(inserts, name) is None {
            assert forall|k: int| 0 <= k < inserts.len() implies (#[trigger] inserts[k]).name@
                != name by {
                if k < inserts.len() - 1 {
                    assert(inserts.drop_last()[k] == inserts[k]);
                }
            }
        }
    }
}

/// A position that `format_position` reports lies in the list, and the
/// format there carries the identifier that was asked for.
pub proof fn lemma_format_position(formats: Seq<MemeFormat>, id: Seq<char>)
    ensures
        format_position(formats, id) matches Some(k) ==> 0 <= k < formats.len()
            && formats[k].memeid@ == id,
        format_position(formats, id) is None ==> forall|k: int|
            0 <= k < formats.len() ==> (#[trigger] formats[k]).memeid@ != id,
    decreases formats.len(),
{
    if formats.len() > 0 && formats.last().memeid@ != id {
        lemma_format_position(formats.drop_last(), id);
        if format_position(formats, id) is None {
            assert forall|k: int| 0 <= k < formats.len() implies (#[trigger] formats[k]).memeid@
                != id by {
                if k < formats.len() - 1 {
                    assert(formats.drop_last()[k] == formats[k]);
                }
            }
        }
    }
}

impl MemeFormat {
    /// The insert that `name` stands for, if the format has one.
    pub open spec fn insert_named(&self, name: Seq<char>) -> Option<InsertArea> {
        match insert_position(self.inserts@, name) {
            Some(k) => Some(self.inserts@[k]),
            None => None,
        }
    }

    /// A format without inserts.
    pub fn new(memeid: String, image_path: String) -> (format: MemeFormat)
        ensures
            format.memeid == memeid,
            format.image_path == image_path,
            format.inserts@.len() == 0,
    {
        MemeFormat { memeid, image_path, inserts: Vec::new() }
    }

    /// Adds an insert. It takes the place of any earlier insert of the same
    /// name; the inserts of other names stay as they are.
    pub fn add_insert(&mut self, insert: InsertArea)
        ensures
            final(self).memeid == old(self).memeid,
            final(self).image_path == old(self).image_path,
            final(self).inserts@ == old(self).inserts@.push(insert),
            final(self).insert_named(insert.name@) == Some(insert),
            forall|name: Seq<char>|
                name != insert.name@ ==> final(self).insert_named(name) == old(self).insert_named(
                    name,
                ),
    {
        let ghost before = self.inserts@;
        self.inserts.push(insert);
        proof {
            assert(self.inserts@.drop_last() =~= before);
            assert forall|name: Seq<char>| name != insert.name@ implies self.insert_named(name)
                == old(self).insert_named(name) by {
                lemma_insert_position(before, name);
            }
        }
    }

    /// Lists the names of the inserts in order, each name once.
    pub fn insert_names(&self) -> (names: Vec<String>)
        ensures
            ascending(names@),
            forall|name: Seq<char>| holds(names@, name) <==> self.insert_named(name) is Some,
    {
        let mut all: Vec<String> = Vec::new();
        let mut k: usize = 0;
        while k < self.inserts.len()
            invariant
                k <= self.inserts@.len(),
                all@.len() == k,
                forall|j: int| 0 <= j < k ==> (#[trigger] all@[j])@ == self.inserts@[j].name@,
            decreases self.inserts@.len() - k,
        {
            all.push(self.inserts[k].name.clone());
            k += 1;
        }
        let names: Vec<String> = in_order(&all);
        proof {
            assert forall|name: Seq<char>| holds(names@, name) <==> self.insert_named(
                name,
            ) is Some by {
                lemma_insert_position(self.inserts@, name);
                if holds(all@, name) {
                    let j = choose|j: int| 0 <= j < all@.len() && (#[trigger] all@[j])@ == name;
                    assert(self.inserts@[j].name@ == name);
                }
                if self.insert_named(name) is Some {
                    let j = insert_position(self.inserts@, name)->Some_0;
                    assert(all@[j]@ == name);
                }
            }
        }
        names
    }

    /// Looks an insert up by its name.
    pub fn find_insert(&self, name: &String) -> (found: Option<&InsertArea>)
        ensures
            match found {
                Some(insert) => self.insert_named(name@) == Some(*insert),
                None => self.insert_named(name@) is None,
            },
    {
        let mut k: usize = self.inserts.len();
        assert(self.inserts@.take(k as int) =~= self.inserts@);
        while k > 0
            invariant
                k <= self.inserts@.len(),
                insert_position(self.inserts@, name@) == insert_position(
                    self.inserts@.take(k as int),
                    name@,
                ),
            decreases k,
        {
            k -= 1;
            proof {
                let upto = self.inserts@.take(k + 1);
                assert(upto.drop_last() =~= self.inserts@.take(k as int));
                assert(upto.last() == self.inserts@[k as int]);
            }
            if self.inserts[k].name == *name {
                return Some(&self.inserts[k]);
            }
        }
        proof {
            assert(self.inserts@.take(0).len() == 0);
        }
        None
    }
}

impl FormatRepo {
    /// The format that `id` stands for, if the collection has one.
    pub open spec fn format_named(&self, id: Seq<char>) -> Option<MemeFormat> {
        match format_position(self.formats@, id) {
            Some(k) => Some(self.formats@[k]),
            None => None,
        }
    }

    /// A collection without formats.
    pub fn new(name: String) -> (repo: FormatRepo)
        ensures
            repo.name == name,
            repo.formats@.len() == 0,
    {
        FormatRepo { name, formats: Vec::new() }
    }

    /// Registers a format. It takes the place of any earlier format with the
    /// same identifier; the formats under other identifiers stay.
    pub fn register(&mut self, format: MemeFormat)
        ensures
            final(self).name == old(self).name,
            final(self).formats@ == old(self).formats@.push(format),
            final(self).format_named(format.memeid@) == Some(format),
            forall|id: Seq<char>|
                id != format.memeid@ ==> final(self).format_named(id) == old(self).format_named(
                    id,
                ),
    {
        let ghost before = self.formats@;
        self.formats.push(format);
        proof {
            assert(self.formats@.drop_last() =~= before);
            assert forall|id: Seq<char>| id != format.memeid@ implies self.format_named(id)
                == old(self).format_named(id) by {
                lemma_format_position(before, id);
            }
        }
    }

    /// Lists the identifiers of the formats in order, each identifier once.
    pub fn sorted_ids(&self) -> (ids: Vec<String>)
        ensures
            ascending(ids@),
            forall|id: Seq<char>| holds(ids@, id) <==> self.format_named(id) is Some,
    {
        let mut all: Vec<String> = Vec::new();
        let mut k: usize = 0;
        while k < self.formats.len()
            invariant
                k <= self.formats@.len(),
                all@.len() == k,
                forall|j: int| 0 <= j < k ==> (#[trigger] all@[j])@ == self.formats@[j].memeid@,
            decreases self.formats@.len() - k,
        {
            all.push(self.formats[k].memeid.clone());
            k += 1;
        }
        let ids: Vec<String> = in_order(&all);
        proof {
            assert forall|id: Seq<char>| holds(ids@, id) <==> self.format_named(id) is Some by {
                lemma_format_position(self.formats@, id);
                if holds(all@, id) {
                    let j = choose|j: int| 0 <= j < all@.len() && (#[trigger] all@[j])@ == id;
                    assert(self.formats@[j].memeid@ == id);
                }
                if self.format_named(id) is Some {
                    let j = format_position(self.formats@, id)->Some_0;
                    assert(all@[j]@ == id);
                }
            }
        }
        ids
    }

    /// Looks a format up by its identifier.
    pub fn get_format(&self, id: &String) -> (found: Option<&MemeFormat>)
        ensures
            match found {
                Some(format) => self.format_named(id@) == Some(*format),
                None => self.format_named(id@) is None,
            },
    {
        let mut k: usize = self.formats.len();
        assert(self.formats@.take(k as int) =~= self.formats@);
        while k > 0
            invariant
                k <= self.formats@.len(),
                format_position(self.formats@, id@) == format_position(
                    self.formats@.take(k as int),
                    id@,
                ),
            decreases k,
        {
            k -= 1;
            proof {
                let upto = self.formats@.take(k + 1);
                assert(upto.drop_last() =~= self.formats@.take(k as int));
                assert(upto.last() == self.formats@[k as int]);
            }
            if self.formats[k].memeid == *id {
                return Some(&self.formats[k]);
            }
        }
        proof {
            assert(self.formats@.take(0).len() == 0);
        }
        None
    }
}

} // verus!
