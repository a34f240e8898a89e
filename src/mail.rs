use mailparse::MailHeaderMap;
use vstd::prelude::*;

use crate::text::{first_true, has_string, normalize_id, trim_id, contains_string};

verus! {

/// Where a message was found: among the new arrivals, or already filed in
/// the folder with the given index.
#[derive(Debug, Clone, Copy, PartialEq, Eq, Structural, PartialOrd, Ord, Hash)]
pub enum Type {
    New,
    Folder(usize),
}

#[verifier::external_type_specification]
#[verifier::external_body]
pub struct ExMailParseError(mailparse::MailParseError);

/// The values of every header named `key` (compared without regard to
/// case), in order, as the mail parser decodes them from `raw`.
pub uninterp spec fn header_values_of(raw: Seq<u8>, key: Seq<char>) -> Seq<Seq<char>>;

/// The decoded body text of the message `raw`.
pub uninterp spec fn body_of(raw: Seq<u8>) -> Seq<char>;

/// The header values and body text that the assorting logic reads.
pub struct MailFields {
    pub ids: Vec<String>,
    pub replies: Vec<String>,
    pub list_ids: Vec<String>,
    pub to: Vec<String>,
    pub cc: Vec<String>,
    pub from: Vec<String>,
    pub body: String,
}

/// Relies on `mailparse::parse_mail`, `MailHeaderMap::get_all_values` on its
/// headers and `ParsedMail::get_body`: each field is what they decode.
#[verifier::external_body]
fn read_fields(raw: &[u8]) -> (r: Result<MailFields, mailparse::MailParseError>)
    ensures
        r matches Ok(f) ==> {
            &&& f.ids.deep_view() == header_values_of(raw@, "Message-ID"@)
            &&& f.replies.deep_view() == header_values_of(raw@, "In-Reply-To"@)
            &&& f.list_ids.deep_view() == header_values_of(raw@, "List-Id"@)
            &&& f.to.deep_view() == header_values_of(raw@, "To"@)
            &&& f.cc.deep_view() == header_values_of(raw@, "Cc"@)
            &&& f.from.deep_view() == header_values_of(raw@, "From"@)
            &&& f.body@ == body_of(raw@)
        },
{
    let m = mailparse::parse_mail(raw)?;
    let body = m.get_body()?;
    Ok(MailFields {
        ids: m.headers.get_all_values("Message-ID"),
        replies: m.headers.get_all_values("In-Reply-To"),
        list_ids: m.headers.get_all_values("List-Id"),
        to: m.headers.get_all_values("To"),
        cc: m.headers.get_all_values("Cc"),
        from: m.headers.get_all_values("From"),
        body,
    })
}

/// A message as the assorting logic sees it.
///
/// Two messages may share an `id` (duplicate deliveries); `path` tells them
/// apart.
pub struct Mail {
    pub typ: Type,
    /// The normalised `Message-ID`.
    pub id: String,
    /// The maildir's own name for the file, used for the final file name.
    pub maildir_id: String,
    /// The normalised `In-Reply-To`, if any.
    pub parent: Option<String>,
    pub raw: Vec<u8>,
    pub body: String,
    pub list_ids: Vec<String>,
    pub to: Vec<String>,
    pub cc: Vec<String>,
    pub from: Vec<String>,
    pub path: String,
}

/// Why a message cannot be indexed.
#[derive(Debug)]
pub enum MailError {
    /// The message at this path has no `Message-ID`.
    MissingId(String),
    /// The message has this many `Message-ID`s and none is preferred.
    MultipleIds(usize, String),
    /// The message has this many `In-Reply-To` headers.
    MultiReply(usize, String),
    /// The message could not be parsed.
    Parse(mailparse::MailParseError),
}

/// Which of the `Message-ID`s names the message: the only one, or else the
/// first that is preferred.
pub open spec fn picked_id(ids: Seq<String>, prefer: Seq<String>) -> Option<int> {
    if ids.len() == 1 {
        Some(0)
    } else {
        first_true(|k: int| has_string(prefer, ids[k]@), ids.len() as int)
    }
}

/// The normalised parent, for at most one `In-Reply-To`.
pub open spec fn spec_parent(replies: Seq<String>) -> Option<Seq<char>> {
    if replies.len() == 1 {
        Some(trim_id(replies[0]@))
    } else {
        None
    }
}

pub open spec fn parent_view(p: Option<String>) -> Option<Seq<char>> {
    match p {
        Some(s) => Some(s@),
        None => None,
    }
}

impl Mail {
    /// Builds the message from its decoded fields.
    pub fn from_fields(
        fields: MailFields,
        raw: Vec<u8>,
        path: String,
        maildir_id: String,
        typ: Type,
        prefer: &Vec<String>,
    ) -> (r: Result<Mail, MailError>)
        ensures
            fields.ids.len() == 0 ==> (r matches Err(MailError::MissingId(p)) && p@ == path@),
            fields.ids.len() > 1 && picked_id(fields.ids@, prefer@) is None ==> (r matches Err(
                MailError::MultipleIds(n, p),
            ) && n == fields.ids.len() && p@ == path@),
            picked_id(fields.ids@, prefer@) is Some && fields.replies.len() > 1 ==> (r matches Err(
                MailError::MultiReply(n, p),
            ) && n == fields.replies.len() && p@ == path@),
            picked_id(fields.ids@, prefer@) is Some && fields.replies.len() <= 1 ==> (r matches Ok(m) && {
                let k = picked_id(fields.ids@, prefer@)->Some_0;
                &&& m.id@ == trim_id(fields.ids@[k]@)
                &&& parent_view(m.parent) == spec_parent(fields.replies@)
                &&& m.typ == typ
                &&& m.raw@ == raw@
                &&& m.path@ == path@
                &&& m.maildir_id@ == maildir_id@
                &&& m.body@ == fields.body@
                &&& m.list_ids@ == fields.list_ids@
                &&& m.to@ == fields.to@
                &&& m.cc@ == fields.cc@
                &&& m.from@ == fields.from@
            }),
    {
        let n = fields.ids.len();
        if n == 0 {
            return Err(MailError::MissingId(path));
        }
        let mut k: usize = 0;
        if n > 1 {
            let ghost p = |j: int| has_string(prefer@, fields.ids@[j]@);
            let mut found = false;
            while k < n && !found
                invariant
                    n == fields.ids.len(),
                    k <= n,
                    found ==> k < n && has_string(prefer@, fields.ids@[k as int]@),
                    forall|j: int| 0 <= j < k ==> !has_string(prefer@, #[trigger] fields.ids@[j]@),
                decreases n - k + (if found { 0int } else { 1int }),
            {
                if contains_string(prefer, &fields.ids[k]) {
                    found = true;
                } else {
                    k = k + 1;
                }
            }
            assert(forall|j: int| 0 <= j < k ==> !#[trigger] p(j));
            if k == n {
                proof {
                    crate::text::lemma_first_true_none(p, n as int);
                }
                return Err(MailError::MultipleIds(n, path));
            }
            proof {
                crate::text::lemma_first_true_is(p, n as int, k as int);
            }
        }
        let id = normalize_id(fields.ids[k].as_str());
        let nr = fields.replies.len();
        if nr > 1 {
            return Err(MailError::MultiReply(nr, path));
        }
        let parent = if nr == 1 {
            Some(normalize_id(fields.replies[0].as_str()))
        } else {
            None
        };
        let MailFields { ids: _, replies: _, list_ids, to, cc, from, body } = fields;
        Ok(Mail { typ, id, maildir_id, parent, raw, body, list_ids, to, cc, from, path })
    }

}

/// Parses the message `raw` found at `path`.
pub fn parse(raw: Vec<u8>, path: String, maildir_id: String, typ: Type, prefer: &Vec<String>) -> (r:
    Result<Mail, MailError>)
    ensures
        r matches Ok(m) ==> {
            let ids = header_values_of(raw@, "Message-ID"@);
            let replies = header_values_of(raw@, "In-Reply-To"@);
            &&& ids.len() > 0
            &&& replies.len() <= 1
            &&& (ids.len() == 1 ==> m.id@ == trim_id(ids[0]))
            &&& (replies.len() == 0 ==> m.parent is None)
            &&& (replies.len() == 1 ==> parent_view(m.parent) == Some(trim_id(replies[0])))
            &&& m.typ == typ
            &&& m.raw@ == raw@
            &&& m.path@ == path@
            &&& m.maildir_id@ == maildir_id@
            &&& m.body@ == body_of(raw@)
            &&& m.list_ids.deep_view() == header_values_of(raw@, "List-Id"@)
            &&& m.to.deep_view() == header_values_of(raw@, "To"@)
            &&& m.cc.deep_view() == header_values_of(raw@, "Cc"@)
            &&& m.from.deep_view() == header_values_of(raw@, "From"@)
        },
        r matches Err(MailError::MissingId(_)) ==> header_values_of(raw@, "Message-ID"@).len()
            == 0,
        r matches Err(MailError::MultipleIds(n, _)) ==> n > 1 && n == header_values_of(
            raw@,
            "Message-ID"@,
        ).len(),
        r matches Err(MailError::MultiReply(n, _)) ==> n > 1 && n == header_values_of(
            raw@,
            "In-Reply-To"@,
        ).len(),
{
    match read_fields(raw.as_slice()) {
        Err(e) => Err(MailError::Parse(e)),
        Ok(fields) => {
            proof {
                let ids = fields.ids@;
                assert(fields.ids.deep_view().len() == ids.len());
                assert(fields.replies.deep_view().len() == fields.replies@.len());
                if ids.len() == 1 {
                    assert(fields.ids.deep_view()[0] == ids[0]@);
                }
                if fields.replies@.len() == 1 {
                    assert(fields.replies.deep_view()[0] == fields.replies@[0]@);
                }
            }
            Mail::from_fields(fields, raw, path, maildir_id, typ, prefer)
        },
    }
}

} // verus!
