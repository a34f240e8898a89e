use vstd::prelude::*;

verus! {

#[verifier::external_type_specification]
#[verifier::external_body]
pub struct ExRegex(regex::Regex);

#[verifier::external_type_specification]
#[verifier::external_body]
pub struct ExRegexError(regex::Error);

/// Whether the regular expression `pattern` matches somewhere in `text`.
pub uninterp spec fn keyword_matches(pattern: Seq<char>, text: Seq<char>) -> bool;

/// Whether `pattern` is a regular expression that the regex engine accepts.
pub uninterp spec fn pattern_compiles(pattern: Seq<char>) -> bool;

/// Relies on `regex::Regex::new`: compiles `pattern`, or reports why it is
/// not a valid regular expression; which of the two depends on the pattern
/// alone.
#[verifier::external_body]
fn compile(pattern: &str) -> (r: Result<regex::Regex, regex::Error>)
    ensures
        r is Ok <==> pattern_compiles(pattern@),
{
    regex::Regex::new(pattern)
}

/// A regular expression scanned for in message bodies.
///
/// The compiled expression is always the one compiled from `source`.
#[derive(Debug)]
pub struct Keyword {
    source: String,
    regex: regex::Regex,
}

impl View for Keyword {
    type V = Seq<char>;

    closed spec fn view(&self) -> Seq<char> {
        self.source@
    }
}

impl Keyword {
    pub fn new(pattern: String) -> (r: Result<Keyword, regex::Error>)
        ensures
            r is Ok <==> pattern_compiles(pattern@),
            r matches Ok(k) ==> k@ == pattern@,
    {
        match compile(pattern.as_str()) {
            Ok(regex) => Ok(Keyword { source: pattern, regex }),
            Err(e) => Err(e),
        }
    }

    pub fn as_str(&self) -> (r: &str)
        ensures
            r@ == self@,
    {
        self.source.as_str()
    }

    /// Relies on `regex::Regex::is_match`, applied to the expression compiled
    /// from this keyword's source.
    #[verifier::external_body]
    pub fn matches(&self, text: &str) -> (r: bool)
        ensures
            r == keyword_matches(self@, text@),
    {
        self.regex.is_match(text)
    }
}

/// Whether any keyword of `kws` matches `text`.
pub open spec fn any_matches(kws: Seq<Keyword>, text: Seq<char>) -> bool {
    exists|k: int| 0 <= k < kws.len() && keyword_matches(#[trigger] kws[k]@, text)
}

pub fn any_keyword_matches(kws: &Vec<Keyword>, text: &str) -> (r: bool)
    ensures
        r == any_matches(kws@, text@),
{
    let mut i: usize = 0;
    while i < kws.len()
        invariant
            i <= kws.len(),
            forall|k: int| 0 <= k < i ==> !keyword_matches(#[trigger] kws@[k]@, text@),
        decreases kws.len() - i,
    {
        if kws[i].matches(text) {
            return true;
        }
        i = i + 1;
    }
    false
}

/// Special handling of particular lists and clients.
#[derive(Debug, Clone, Default)]
pub struct Quirks {
    /// `List-Id`s whose duplicates are discarded whatever their content.
    pub deduplicate: Vec<String>,
    /// `Message-ID`s preferred when a message carries several.
    pub prefer: Vec<String>,
}

/// The command that opens a mail client.
#[derive(Debug, Clone)]
pub struct Client {
    pub command: Vec<String>,
}

/// Version control around the mail store.
#[derive(Debug, Clone, Copy, PartialEq, Eq, Structural)]
pub struct Git {
    pub push: bool,
    pub pull: bool,
}

/// Keywords that mark a message as flagged.
#[derive(Debug, Default)]
pub struct Flagging {
    pub keywords: Vec<Keyword>,
}

/// Lists whose messages are discarded unless they name the user.
#[derive(Debug, Clone)]
pub struct Ignore {
    /// The name (or address) that marks a message as addressed to the user.
    pub name: String,
    /// The `List-Id`s to ignore.
    pub lists: Vec<String>,
}

/// One configured destination folder.
#[derive(Debug)]
pub struct Folder {
    pub name: String,
    pub keywords: Vec<Keyword>,
    pub priority: usize,
    pub mark_read: bool,
    pub flagging_keywords: Option<Vec<Keyword>>,
}

/// The whole configuration.
#[derive(Debug)]
pub struct Config {
    /// The root maildir.
    pub path: String,
    pub query: String,
    pub quirks: Quirks,
    /// The user's own addresses: mail from them is marked read.
    pub addresses: Vec<String>,
    pub flagging: Flagging,
    pub folders: Vec<Folder>,
    pub client: Option<Client>,
    pub git: Option<Git>,
    pub ignore: Option<Ignore>,
}

} // verus!
