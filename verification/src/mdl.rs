//! The caption request: which format to caption, and with what texts.

use vstd::prelude::*;

verus! {

/// The format that a request builds on, by its identifier.
#[derive(Clone, Debug, PartialEq, Eq)]
pub struct MdlBase {
    pub format: String,
}

/// The texts of the three fixed bands; each may be absent.
#[derive(Clone, Debug, PartialEq, Eq)]
pub struct MdlCaption {
    pub bottom_text: Option<String>,
    pub top_text: Option<String>,
    pub center_text: Option<String>,
}

/// What a request gives one named insert of the format: a text, or
/// something that is no text (`None`).
#[derive(Clone, Debug, PartialEq, Eq)]
pub struct MdlInsert {
    pub name: String,
    pub text: Option<String>,
}

/// The inserts of a request as it was written.
#[derive(Clone, Debug, PartialEq, Eq)]
pub enum MdlInserts {
    /// Something that does not map names to values.
    Other,
    /// The named values, in the order in which they are rendered.
    Entries(Vec<MdlInsert>),
}

/// A whole caption request.
#[derive(Clone, Debug, PartialEq, Eq)]
pub struct MdlMeme {
    /// The version of the description language, `MDL/1.1`.
    pub version: String,
    /// The kind of thing described, `meme`.
    pub kind: String,
    /// The format to caption.
    pub base: MdlBase,
    /// The texts of the fixed bands.
    pub caption: MdlCaption,
    /// What the request gives the named inserts, if it names any.
    pub inserts: Option<MdlInserts>,
}

/// The version that a request has to name.
pub open spec fn supported_version() -> Seq<char> {
    "MDL/1.1"@
}

/// The kind that a request has to name.
pub open spec fn supported_kind() -> Seq<char> {
    "meme"@
}

/// What is wrong with a request that cannot be rendered as it stands.
#[derive(Clone, Copy, Debug, PartialEq, Eq, Structural)]
pub enum MdlError {
    /// The request does not describe a meme.
    WrongKind,
    /// The request is written in a version that is not supported.
    WrongVersion,
}

/// A caption without any text.
pub fn empty_mdl_caption() -> (caption: MdlCaption)
    ensures
        caption.bottom_text is None,
        caption.top_text is None,
        caption.center_text is None,
{
    MdlCaption { bottom_text: None, center_text: None, top_text: None }
}

impl MdlBase {
    /// The base that a bare identifier stands for.
    pub fn named(id: &str) -> (base: MdlBase)
        ensures
            base.format@ == id@,
    {
        MdlBase { format: id.to_owned() }
    }
}

impl MdlCaption {
    /// The caption that a bare text stands for: the text goes to the bottom
    /// band, the other bands stay empty.
    pub fn single(text: &str) -> (caption: MdlCaption)
        ensures
            caption.bottom_text matches Some(bottom) && bottom@ == text@,
            caption.top_text is None,
            caption.center_text is None,
    {
        MdlCaption { bottom_text: Some(text.to_owned()), top_text: None, center_text: None }
    }

    /// Whether no band has anything to say: every text is absent or empty.
    pub open spec fn is_blank(&self) -> bool {
        &&& self.bottom_text matches Some(t) ==> t@.len() == 0
        &&& self.top_text matches Some(t) ==> t@.len() == 0
        &&& self.center_text matches Some(t) ==> t@.len() == 0
    }

    /// Tells whether no band has anything to say.
    pub fn has_no_text(&self) -> (blank: bool)
        ensures
            blank == self.is_blank(),
    {
        silent(&self.bottom_text) && silent(&self.top_text) && silent(&self.center_text)
    }
}

/// Tells whether a text is absent or empty.
pub fn silent(text: &Option<String>) -> (quiet: bool)
    ensures
        quiet == (text matches Some(t) ==> t@.len() == 0),
{
    match text {
        Some(t) => t.as_str().is_empty(),
        None => true,
    }
}

impl core::str::FromStr for MdlBase {
    type Err = String;

    fn from_str(s: &str) -> (parsed: Result<Self, Self::Err>)
        ensures
            parsed matches Ok(base) && base.format@ == s@,
    {
        Ok(MdlBase::named(s))
    }
}

impl core::str::FromStr for MdlCaption {
    type Err = String;

    fn from_str(s: &str) -> (parsed: Result<Self, Self::Err>)
        ensures
            parsed matches Ok(caption) && caption.bottom_text matches Some(bottom) && bottom@
                == s@ && caption.top_text is None && caption.center_text is None,
    {
        Ok(MdlCaption::single(s))
    }
}

/// Whether a kind and a version are the supported ones.
pub open spec fn header_supported(kind: Seq<char>, version: Seq<char>) -> bool {
    kind == supported_kind() && version == supported_version()
}

/// Checks the kind and the version that a request names, the kind first.
pub fn check_header(kind: &str, version: &str) -> (checked: Result<(), MdlError>)
    ensures
        checked is Ok <==> header_supported(kind@, version@),
        checked == Err::<(), MdlError>(MdlError::WrongKind) <==> kind@ != supported_kind(),
        checked == Err::<(), MdlError>(MdlError::WrongVersion) <==> (kind@ == supported_kind()
            && version@ != supported_version()),
{
    let wanted_kind: String = "meme".to_owned();
    let wanted_version: String = "MDL/1.1".to_owned();
    if kind.to_owned() != wanted_kind {
        Err(MdlError::WrongKind)
    } else if version.to_owned() != wanted_version {
        Err(MdlError::WrongVersion)
    } else {
        Ok(())
    }
}

impl MdlMeme {
    /// Whether the request names the supported kind and version.
    pub open spec fn is_supported(&self) -> bool {
        header_supported(self.kind@, self.version@)
    }

    /// Checks the kind and the version of a request, the kind first.
    pub fn validate(&self) -> (checked: Result<(), MdlError>)
        ensures
            checked is Ok <==> self.is_supported(),
            checked == Err::<(), MdlError>(MdlError::WrongKind) <==> self.kind@
                != supported_kind(),
            checked == Err::<(), MdlError>(MdlError::WrongVersion) <==> (self.kind@
                == supported_kind() && self.version@ != supported_version()),
    {
        check_header(self.kind.as_str(), self.version.as_str())
    }
}

} // verus!
