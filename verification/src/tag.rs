//! Language tags: a language with an optional script, an optional region and
//! any number of variants, and the canonical string of such a tag.

use crate::text::{opt_view, views};
use vstd::prelude::*;
use vstd::string::*;

verus! {

pub open spec fn is_lower(c: char) -> bool {
    'a' <= c <= 'z'
}

pub open spec fn is_upper(c: char) -> bool {
    'A' <= c <= 'Z'
}

pub open spec fn is_digit(c: char) -> bool {
    '0' <= c <= '9'
}

pub open spec fn is_letter(c: char) -> bool {
    is_lower(c) || is_upper(c)
}

/// Two to eight lower-case letters, but not four: four letters are a script.
pub open spec fn language_shaped(s: Seq<char>) -> bool {
    &&& 2 <= s.len() <= 8
    &&& s.len() != 4
    &&& forall|i: int| 0 <= i < s.len() ==> is_lower(#[trigger] s[i])
}

/// Four letters in title case, such as `Latn`.
pub open spec fn script_shaped(s: Seq<char>) -> bool {
    &&& s.len() == 4
    &&& is_upper(s[0])
    &&& forall|i: int| 1 <= i < s.len() ==> is_lower(#[trigger] s[i])
}

/// Two upper-case letters, such as `SE`, or three digits, such as `001`.
pub open spec fn region_shaped(s: Seq<char>) -> bool {
    ||| s.len() == 2 && forall|i: int| 0 <= i < s.len() ==> is_upper(#[trigger] s[i])
    ||| s.len() == 3 && forall|i: int| 0 <= i < s.len() ==> is_digit(#[trigger] s[i])
}

/// What a tag holds, as plain sequences of characters.
pub struct TagParts {
    pub language: Seq<char>,
    pub script: Option<Seq<char>>,
    pub region: Option<Seq<char>>,
    pub variants: Seq<Seq<char>>,
}

impl TagParts {
    /// Each subtag that is present has the shape of its kind.
    pub open spec fn well_formed(self) -> bool {
        &&& language_shaped(self.language)
        &&& self.script matches Some(s) ==> script_shaped(s)
        &&& self.region matches Some(r) ==> region_shaped(r)
    }

    /// The same tag with another script.
    pub open spec fn with_script(self, script: Option<Seq<char>>) -> TagParts {
        TagParts { script, ..self }
    }

    /// The same tag with another region.
    pub open spec fn with_region(self, region: Option<Seq<char>>) -> TagParts {
        TagParts { region, ..self }
    }
}

/// A hyphen and the subtag, or nothing where the subtag is absent.
pub open spec fn hyphenated(subtag: Option<Seq<char>>) -> Seq<char> {
    match subtag {
        Some(s) => seq!['-'] + s,
        None => Seq::empty(),
    }
}

/// Every variant in turn, each behind a hyphen.
pub open spec fn hyphenated_all(variants: Seq<Seq<char>>) -> Seq<char>
    decreases variants.len(),
{
    if variants.len() == 0 {
        Seq::empty()
    } else {
        hyphenated_all(variants.drop_last()) + seq!['-'] + variants.last()
    }
}

/// The canonical string of a tag: its subtags in order, joined by hyphens.
pub open spec fn canonical(t: TagParts) -> Seq<char> {
    t.language + hyphenated(t.script) + hyphenated(t.region) + hyphenated_all(t.variants)
}

/// A language tag.
#[derive(Clone, Debug)]
pub struct LanguageTag {
    pub language: String,
    pub script: Option<String>,
    pub region: Option<String>,
    pub variants: Vec<String>,
}

impl View for LanguageTag {
    type V = TagParts;

    open spec fn view(&self) -> TagParts {
        TagParts {
            language: self.language@,
            script: opt_view(self.script),
            region: opt_view(self.region),
            variants: views(self.variants@),
        }
    }
}

/// Why a string is no language tag.
#[derive(Clone, Copy, Debug, PartialEq, Eq, Structural)]
pub enum TagError {
    InvalidLanguageTag,
}

/// The error of the parser of `unic_langid`. Nothing is read from it: it is
/// carried from the call to the place where it becomes a `TagError`.
#[verifier::external_type_specification]
#[verifier::external_body]
pub struct ExLanguageIdentifierError(unic_langid::LanguageIdentifierError);

/// What `unic_langid` makes of a string: the parts of the tag it reads, with
/// their case normalised, or nothing where the string is no tag.
pub uninterp spec fn langid_parts(s: Seq<char>) -> Option<TagParts>;

/// Parses with `unic_langid::LanguageIdentifier::from_bytes` and copies the
/// subtags out as strings. The contract names the result and claims of it
/// only the shape that the subtag parsers of `unic_langid` enforce: a language
/// of two to eight lower-case letters but not four, a script of four letters
/// in title case, a region of two upper-case letters or three digits.
#[verifier::external_body]
fn parse_langid(s: &str) -> (r: Result<LanguageTag, unic_langid::LanguageIdentifierError>)
    ensures
        r is Ok <==> langid_parts(s@) is Some,
        r matches Ok(t) ==> langid_parts(s@) == Some(t@) && t@.well_formed(),
{
    let id = unic_langid::LanguageIdentifier::from_bytes(s.as_bytes())?;
    Ok(LanguageTag {
        language: id.language.as_str().to_string(),
        script: id.script.map(|x| x.as_str().to_string()),
        region: id.region.map(|x| x.as_str().to_string()),
        variants: id.variants().map(|x| x.as_str().to_string()).collect(),
    })
}

impl LanguageTag {
    /// Each subtag that is present has the shape of its kind.
    pub open spec fn well_formed(&self) -> bool {
        self@.well_formed()
    }

    /// Reads a tag from its string form.
    pub fn parse(s: &str) -> (r: Result<LanguageTag, TagError>)
        ensures
            match r {
                Ok(t) => langid_parts(s@) == Some(t@) && t.well_formed(),
                Err(e) => langid_parts(s@) is None && e == TagError::InvalidLanguageTag,
            },
    {
        match parse_langid(s) {
            Ok(t) => Ok(t),
            Err(_) => Err(TagError::InvalidLanguageTag),
        }
    }

    /// The canonical string of the tag.
    pub fn canonical(&self) -> (r: String)
        ensures
            r@ == canonical(self@),
    {
        proof {
            reveal_strlit("-");
        }
        let mut out: String = self.language.clone();
        match &self.script {
            Some(s) => {
                out.append("-");
                out.append(s.as_str());
            },
            None => {},
        }
        match &self.region {
            Some(s) => {
                out.append("-");
                out.append(s.as_str());
            },
            None => {},
        }
        let ghost head = out@;
        assert(head =~= self@.language + hyphenated(self@.script) + hyphenated(self@.region));
        assert("-"@ =~= seq!['-']);
        let n: usize = self.variants.len();
        let mut i: usize = 0;
        while i < n
            invariant
                n == self.variants.len(),
                i <= n,
                "-"@ == seq!['-'],
                out@ == head + hyphenated_all(views(self.variants@).take(i as int)),
            decreases n - i,
        {
            let ghost all = views(self.variants@);
            assert(all.take(i + 1).drop_last() =~= all.take(i as int));
            assert(all.take(i + 1).last() == self.variants[i as int]@);
            out.append("-");
            out.append(self.variants[i].as_str());
            i = i + 1;
        }
        assert(views(self.variants@).take(n as int) =~= views(self.variants@));
        out
    }
}

} // verus!
