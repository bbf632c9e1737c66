//! The texts that go back to the sender of a request.

use vstd::prelude::*;
use vstd::string::StringExecFns;
use vstd::string::StringSliceAdditionalSpecFns;
use vstd::utf8::decode_utf8;
use vstd::utf8::encode_utf8;
use vstd::utf8::encode_utf8_decode_utf8;
use vstd::utf8::encode_utf8_valid_utf8;
use vstd::utf8::is_char_boundary;
use crate::error::RenderError;
use crate::mdl::MdlError;
use crate::repository::FormatRepo;
use crate::sorting::ascending;
use crate::sorting::holds;

verus! {

/// Why a message that looked like a request got no image.
#[derive(Clone, Debug, PartialEq, Eq)]
pub enum Failure {
    /// The text could not be read as a request; the reader's own words.
    Parsing(String),
    /// The request names a kind or a version that is not supported.
    Validation(MdlError),
    /// The request could not be rendered.
    Generation(RenderError),
}

/// The text of an error reply: the title, underlined and behind a warning
/// sign, then the error itself, in a code block of its own where `code`
/// asks for one, else on the same line.
pub open spec fn error_reply_text(title: Seq<char>, error: Seq<char>, code: bool) -> Seq<char> {
    if code {
        ":warning: __"@ + title + ":__\n```\n"@ + error + "\n```"@
    } else {
        ":warning: __"@ + title + ":__ "@ + error
    }
}

/// What a rendering error says.
pub open spec fn render_error_text(error: RenderError) -> Seq<char> {
    match error {
        RenderError::UnknownFormat(id) => "Meme format "@ + id@ + " not found."@,
        RenderError::UnknownInsert(name) => "This meme does not have an insert called \""@
            + name@ + "\""@,
        RenderError::EncodingFailure => "The image could not be encoded."@,
        RenderError::ImageUnreadable(words) => words@,
        RenderError::InsertsNotObject => "Key 'inserts' should be an object."@,
        RenderError::InsertNotText => "Insert value must be a string."@,
    }
}

/// What a validation error says.
pub open spec fn mdl_error_text(error: MdlError) -> Seq<char> {
    match error {
        MdlError::WrongKind => "`type` field did not equal 'meme'."@,
        MdlError::WrongVersion =>
            "`version` field did not equal 'MDL/1.1'. This is the only supported version as of now."@,
    }
}

/// The title under which a failure is reported.
pub open spec fn failure_title(failure: Failure) -> Seq<char> {
    match failure {
        Failure::Parsing(_) => "MDL Parsing Failure"@,
        Failure::Validation(_) => "MDL Validation Failure"@,
        Failure::Generation(_) => "Meme Generation Failure"@,
    }
}

/// What a failure says.
pub open spec fn failure_text(failure: Failure) -> Seq<char> {
    match failure {
        Failure::Parsing(words) => words@,
        Failure::Validation(error) => mdl_error_text(error),
        Failure::Generation(error) => render_error_text(error),
    }
}

/// Whether a failure is reported in a code block: all but those of
/// validation are.
pub open spec fn failure_in_code(failure: Failure) -> bool {
    !(failure is Validation)
}

/// Builds the text of an error reply.
pub fn error_reply(title: &str, error: &str, code: bool) -> (text: String)
    ensures
        text@ == error_reply_text(title@, error@, code),
{
    let mut text: String = String::from_str(":warning: __");
    text.append(title);
    if code {
        text.append(":__\n```\n");
        text.append(error);
        text.append("\n```");
    } else {
        text.append(":__ ");
        text.append(error);
    }
    text
}

impl RenderError {
    /// Says in words what went wrong.
    pub fn message(&self) -> (text: String)
        ensures
            text@ == render_error_text(*self),
    {
        match self {
            RenderError::UnknownFormat(id) => {
                let mut text: String = String::from_str("Meme format ");
                text.append(id.as_str());
                text.append(" not found.");
                text
            },
            RenderError::UnknownInsert(name) => {
                let mut text: String = String::from_str(
                    "This meme does not have an insert called \"",
                );
                text.append(name.as_str());
                text.append("\"");
                text
            },
            RenderError::EncodingFailure => String::from_str("The image could not be encoded."),
            RenderError::ImageUnreadable(words) => words.clone(),
            RenderError::InsertsNotObject => String::from_str(
                "Key 'inserts' should be an object.",
            ),
            RenderError::InsertNotText => String::from_str("Insert value must be a string."),
        }
    }
}

impl MdlError {
    /// Says in words what is wrong with the request.
    pub fn message(&self) -> (text: String)
        ensures
            text@ == mdl_error_text(*self),
    {
        match self {
            MdlError::WrongKind => String::from_str("`type` field did not equal 'meme'."),
            MdlError::WrongVersion => String::from_str(
                "`version` field did not equal 'MDL/1.1'. This is the only supported version as of now.",
            ),
        }
    }
}

impl Failure {
    /// Builds the reply that reports this failure.
    pub fn reply(&self) -> (text: String)
        ensures
            text@ == error_reply_text(
                failure_title(*self),
                failure_text(*self),
                failure_in_code(*self),
            ),
    {
        match self {
            Failure::Parsing(words) => error_reply("MDL Parsing Failure", words.as_str(), true),
            Failure::Validation(error) => {
                let words: String = error.message();
                error_reply("MDL Validation Failure", words.as_str(), false)
            },
            Failure::Generation(error) => {
                let words: String = error.message();
                error_reply("Meme Generation Failure", words.as_str(), true)
            },
        }
    }
}

/// One line of an example request: an insert with its own name as text.
/// Every line but the last one ends in a comma.
pub open spec fn insert_line(name: Seq<char>, last: bool) -> Seq<char> {
    "    "@ + name + ": \""@ + name + "\""@ + (if last {
        Seq::empty()
    } else {
        ","@
    }) + "\n"@
}

/// The lines for the first `count` of `names`.
pub open spec fn insert_lines(names: Seq<String>, count: nat) -> Seq<char>
    decreases count,
{
    if count == 0 {
        Seq::empty()
    } else {
        insert_lines(names, (count - 1) as nat) + insert_line(
            names[count - 1]@,
            count == names.len(),
        )
    }
}

/// The part of an example request that lists the inserts; nothing for a
/// format without inserts.
pub open spec fn inserts_block(names: Seq<String>) -> Seq<char> {
    if names.len() == 0 {
        Seq::empty()
    } else {
        ",\n  inserts: {\n"@ + insert_lines(names, names.len()) + "  }"@
    }
}

/// An example request for a format: empty top and bottom texts, and every
/// insert with its own name as text.
pub open spec fn example_mdl_text(memeid: Seq<char>, names: Seq<String>) -> Seq<char> {
    "{\n  version: \"MDL/1.1\",\n  type: \"meme\",\n  base: \""@ + memeid
        + "\",\n  caption: {\n    topText: \"\",\n    bottomText: \"\"\n  }"@ + inserts_block(
        names,
    ) + "\n}"@
}

/// Writes an example request for a format.
pub fn example_mdl(memeid: &str, names: &Vec<String>) -> (text: String)
    ensures
        text@ == example_mdl_text(memeid@, names@),
{
    let mut text: String = String::from_str(
        "{\n  version: \"MDL/1.1\",\n  type: \"meme\",\n  base: \"",
    );
    text.append(memeid);
    text.append("\",\n  caption: {\n    topText: \"\",\n    bottomText: \"\"\n  }");
    let ghost head = text@;
    if names.len() > 0 {
        text.append(",\n  inserts: {\n");
        let ghost opened = text@;
        let mut k: usize = 0;
        while k < names.len()
            invariant
                k <= names@.len(),
                text@ == opened + insert_lines(names@, k as nat),
            decreases names@.len() - k,
        {
            let ghost before = text@;
            let name: &str = names[k].as_str();
            text.append("    ");
            text.append(name);
            text.append(": \"");
            text.append(name);
            text.append("\"");
            if k + 1 < names.len() {
                text.append(",");
            }
            text.append("\n");
            proof {
                assert(text@ =~= before + insert_line(name@, k + 1 == names@.len()));
                assert(text@ =~= opened + insert_lines(names@, (k + 1) as nat));
            }
            k += 1;
        }
        text.append("  }");
        proof {
            assert(text@ =~= head + inserts_block(names@));
        }
    } else {
        proof {
            assert(text@ =~= head + inserts_block(names@));
        }
    }
    text.append("\n}");
    text
}

/// The inserts of a format in one line: each name between backticks, the
/// names parted by a comma and a space.
pub open spec fn listed_names(names: Seq<String>, count: nat) -> Seq<char>
    decreases count,
{
    if count == 0 {
        Seq::empty()
    } else if count == 1 {
        "`"@ + names[0]@ + "`"@
    } else {
        listed_names(names, (count - 1) as nat) + ", "@ + "`"@ + names[count - 1]@ + "`"@
    }
}

/// What is shown for the inserts of a format: the names in one line, or a
/// word for none.
pub open spec fn insert_listing_text(names: Seq<String>) -> Seq<char> {
    if names.len() == 0 {
        "*None*"@
    } else {
        listed_names(names, names.len())
    }
}

/// Lists the inserts of a format in one line.
pub fn insert_listing(names: &Vec<String>) -> (text: String)
    ensures
        text@ == insert_listing_text(names@),
{
    if names.len() == 0 {
        return String::from_str("*None*");
    }
    let mut text: String = String::from_str("`");
    text.append(names[0].as_str());
    text.append("`");
    let mut k: usize = 1;
    while k < names.len()
        invariant
            1 <= k <= names@.len(),
            text@ == listed_names(names@, k as nat),
        decreases names@.len() - k,
    {
        let ghost before = text@;
        text.append(", ");
        text.append("`");
        text.append(names[k].as_str());
        text.append("`");
        proof {
            assert(text@ =~= before + ", "@ + "`"@ + names@[k as int]@ + "`"@);
        }
        k += 1;
    }
    text
}

/// The longest listing that is sent whole, in bytes.
pub const LISTING_LIMIT: usize = 1990;

/// The head line of a listing and the first `count` identifiers, each on a
/// line of its own.
pub open spec fn listing_lines(ids: Seq<String>, count: nat) -> Seq<char>
    decreases count,
{
    if count == 0 {
        "__Listing available memes...\n__"@
    } else {
        listing_lines(ids, (count - 1) as nat) + ids[count - 1]@ + "\n"@
    }
}

/// The last place at or before `n` at which the bytes of a text can be
/// cut without parting a character.
pub open spec fn cut_place(bytes: Seq<u8>, n: int) -> int
    decreases n,
{
    if n <= 0 {
        0
    } else if is_char_boundary(bytes, n) {
        n
    } else {
        cut_place(bytes, n - 1)
    }
}

/// A text as it is sent: whole if it takes at most `LISTING_LIMIT` bytes,
/// else cut after the last character that ends within that many bytes,
/// with a mark that more would follow.
pub open spec fn shortened(text: Seq<char>) -> Seq<char> {
    if encode_utf8(text).len() > LISTING_LIMIT {
        decode_utf8(
            encode_utf8(text).subrange(0, cut_place(encode_utf8(text), LISTING_LIMIT as int)),
        ) + " ..."@
    } else {
        text
    }
}

/// The listing of the identifiers of all formats, in the order given.
pub open spec fn listing_text(ids: Seq<String>) -> Seq<char> {
    shortened(listing_lines(ids, ids.len()))
}

/// Shortens a text to what is sent of it.
pub fn shorten(text: String) -> (sent: String)
    ensures
        sent@ == shortened(text@),
{
    let whole: &str = text.as_str();
    assert(whole.spec_bytes() == encode_utf8(text@));
    if whole.as_bytes().len() <= LISTING_LIMIT {
        return text;
    }
    let ghost bytes = encode_utf8(text@);
    proof {
        encode_utf8_valid_utf8(text@);
    }
    let mut cut: usize = LISTING_LIMIT;
    while cut > 0 && !whole.is_char_boundary(cut)
        invariant
            whole@ == text@,
            bytes == encode_utf8(text@),
            cut <= LISTING_LIMIT,
            cut_place(bytes, LISTING_LIMIT as int) == cut_place(bytes, cut as int),
        decreases cut,
    {
        cut -= 1;
    }
    assert(is_char_boundary(bytes, cut as int));
    let (head, _) = whole.split_at(cut);
    proof {
        encode_utf8_decode_utf8(head@);
        assert(encode_utf8(head@) == bytes.subrange(0, cut as int));
    }
    let mut sent: String = String::from_str(head);
    sent.append(" ...");
    sent
}

/// Lists the identifiers of all formats, in the order given.
pub fn listing(ids: &Vec<String>) -> (text: String)
    ensures
        text@ == listing_text(ids@),
{
    let mut text: String = String::from_str("__Listing available memes...\n__");
    let mut k: usize = 0;
    while k < ids.len()
        invariant
            k <= ids@.len(),
            text@ == listing_lines(ids@, k as nat),
        decreases ids@.len() - k,
    {
        let ghost before = text@;
        text.append(ids[k].as_str());
        text.append("\n");
        proof {
            assert(text@ =~= before + ids@[k as int]@ + "\n"@);
        }
        k += 1;
    }
    shorten(text)
}

/// Lists the identifiers of all formats of a collection: in order, each
/// identifier once.
pub fn repo_listing(repo: &FormatRepo) -> (text: String)
    ensures
        exists|ids: Seq<String>|
            ascending(ids) && (forall|id: Seq<char>|
                holds(ids, id) <==> repo.format_named(id) is Some) && text@ == #[trigger] listing_text(
                ids,
            ),
{
    let ids: Vec<String> = repo.sorted_ids();
    let text: String = listing(&ids);
    assert(text@ == listing_text(ids@));
    text
}

/// What is said of an identifier under which no format is known.
pub open spec fn unknown_id_text(memeid: Seq<char>) -> Seq<char> {
    ":bangbang: Invalid meme identifier `"@ + memeid + "`."@
}

/// Says that no format is known under an identifier.
pub fn unknown_id_reply(memeid: &str) -> (text: String)
    ensures
        text@ == unknown_id_text(memeid@),
{
    let mut text: String = String::from_str(":bangbang: Invalid meme identifier `");
    text.append(memeid);
    text.append("`.");
    text
}

} // verus!
