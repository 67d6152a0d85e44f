//! The lookup keys of a language tag: every canonical string under which one
//! dictionary must be found.

use crate::reg::{register_langs, with_paths, StoredValue};
use crate::table::Table;
use crate::tag::{canonical, is_letter, is_lower, is_upper, langid_parts, LanguageTag, TagParts};
use crate::text::{insert_key, opt_view, strictly_sorted, views};
use vstd::prelude::*;
use vstd::string::*;

verus! {

/// Why no keys could be derived.
#[derive(Clone, Copy, Debug, PartialEq, Eq, Structural)]
pub enum Error {
    /// The string is no language tag.
    InvalidLanguageTag,
    /// The tag names no script and its language has no default script.
    NoDefaultScript,
}

/// The view of an optional string slice.
pub open spec fn opt_str_view(o: Option<&str>) -> Option<Seq<char>> {
    match o {
        Some(s) => Some(s@),
        None => None,
    }
}

/// The legacy numeric locale identifier that `iso639` lists for a language,
/// script and region, if it lists one.
pub uninterp spec fn legacy_locale_id(
    language: Seq<char>,
    script: Option<Seq<char>>,
    region: Option<Seq<char>>,
) -> Option<u32>;

/// The default script that `iso639` lists for a language, if it lists one.
pub uninterp spec fn default_script_of(language: Seq<char>) -> Option<Seq<char>>;

/// Calls `iso639::lcid::get` and keeps the identifier of the row it finds.
/// The lookup reads tables compiled into the crate, so its result is named as
/// a function of the three arguments. It slices the first byte off a given
/// script, which is why that script must begin with an ASCII character.
#[verifier::external_body]
fn lookup_lcid(language: &str, script: Option<&str>, region: Option<&str>) -> (r: Option<u32>)
    requires
        script matches Some(s) ==> s@.len() > 0 && (s@[0] as u32) < 128,
    ensures
        r == legacy_locale_id(language@, opt_str_view(script), opt_str_view(region)),
{
    iso639::lcid::get(language, script, region).map(|row| row.lcid)
}

/// Calls `iso639::script::get` and copies the script of the row it finds.
/// The lookup reads a table compiled into the crate, so its result is named
/// as a function of the language.
#[verifier::external_body]
fn lookup_default_script(language: &str) -> (r: Option<String>)
    ensures
        opt_view(r) == default_script_of(language@),
{
    iso639::script::get(language).map(|row| row.script).map(String::from)
}

pub open spec fn to_lower(c: char) -> char {
    if is_upper(c) {
        ((c as u8) + 32) as char
    } else {
        c
    }
}

pub open spec fn to_upper(c: char) -> char {
    if is_lower(c) {
        ((c as u8) - 32) as char
    } else {
        c
    }
}

/// The first character in upper case, the others in lower case.
pub open spec fn title_case(s: Seq<char>) -> Seq<char> {
    Seq::new(
        s.len(),
        |i: int|
            if i == 0 {
                to_upper(s[i])
            } else {
                to_lower(s[i])
            },
    )
}

/// A string as a script subtag: four letters, brought into title case.
pub open spec fn as_script(s: Seq<char>) -> Option<Seq<char>> {
    if s.len() == 4 && forall|i: int| 0 <= i < s.len() ==> is_letter(#[trigger] s[i]) {
        Some(title_case(s))
    } else {
        None
    }
}

/// Calls `unic_langid::subtags::Script::from_bytes` and copies the script out.
/// That function accepts exactly four ASCII letters and returns them in title
/// case; anything else it refuses.
#[verifier::external_body]
fn parse_script(s: &str) -> (r: Option<String>)
    ensures
        opt_view(r) == as_script(s@),
{
    unic_langid::subtags::Script::from_bytes(s.as_bytes()).ok().map(|x| x.as_str().to_string())
}

/// The region that stands for the whole world.
pub open spec fn neutral_region() -> Seq<char> {
    seq!['0', '0', '1']
}

/// The script that fallback gives a tag: its own, or else the default of its
/// language where that is a script subtag.
pub open spec fn fallback_script(t: TagParts, default_script: Option<Seq<char>>) -> Option<
    Seq<char>,
> {
    match t.script {
        Some(s) => Some(s),
        None => match default_script {
            Some(d) => as_script(d),
            None => None,
        },
    }
}

/// The keys of a tag, given what the two lookups returned for it.
///
/// A tag with a legacy identifier has its own canonical string and no other
/// key. Any other tag gets its fallback script, and is registered under its
/// own string, under the string with that script, and, where it names no
/// region, under the string with that script and the neutral region.
pub open spec fn derived_keys(
    t: TagParts,
    lcid: Option<u32>,
    default_script: Option<Seq<char>>,
) -> Result<Set<Seq<char>>, Error> {
    if lcid is Some {
        Ok(set![canonical(t)])
    } else if t.script is None && default_script is None {
        Err(Error::NoDefaultScript)
    } else {
        let specific = t.with_script(fallback_script(t, default_script));
        let own = set![canonical(t), canonical(specific)];
        if t.region is None {
            Ok(own.insert(canonical(specific.with_region(Some(neutral_region())))))
        } else {
            Ok(own)
        }
    }
}

/// `v` lists exactly the strings of `keys`, in increasing order, each once.
pub open spec fn is_key_list(v: Seq<String>, keys: Set<Seq<char>>) -> bool {
    &&& strictly_sorted(views(v))
    &&& views(v).to_set() == keys
}

/// A tag with a legacy identifier is registered under its own canonical
/// string and under nothing else: the identifier cuts fallback short.
pub proof fn law_known_locale_has_one_key(
    t: TagParts,
    lcid: Option<u32>,
    default_script: Option<Seq<char>>,
)
    requires
        lcid is Some,
    ensures
        derived_keys(t, lcid, default_script) == Ok::<Set<Seq<char>>, Error>(set![canonical(t)]),
{
}

/// A tag without script, region and legacy identifier, whose language has a
/// default script, is registered at least under its own string, under the
/// string with the default script, and under the string with the default
/// script and the neutral region.
pub proof fn law_bare_tag_gets_fallback_keys(t: TagParts, default_script: Seq<char>)
    requires
        t.script is None,
        t.region is None,
    ensures
        derived_keys(t, None, Some(default_script)) matches Ok(keys) && {
            let specific = t.with_script(as_script(default_script));
            &&& keys.contains(canonical(t))
            &&& keys.contains(canonical(specific))
            &&& keys.contains(canonical(specific.with_region(Some(neutral_region()))))
        },
{
}

/// Without a legacy identifier, a script of its own and a default script for
/// its language, a tag has no keys: derivation fails.
pub proof fn law_no_default_script_fails(t: TagParts)
    requires
        t.script is None,
    ensures
        derived_keys(t, None, None) == Err::<Set<Seq<char>>, Error>(Error::NoDefaultScript),
{
}

/// Whatever the lookups return, a key set holds the tag's own canonical
/// string, so it is never empty, and it has at most three keys.
pub proof fn law_keys_hold_own_string(
    t: TagParts,
    lcid: Option<u32>,
    default_script: Option<Seq<char>>,
)
    ensures
        derived_keys(t, lcid, default_script) matches Ok(keys) ==> {
            &&& keys.contains(canonical(t))
            &&& keys.finite()
            &&& 1 <= keys.len() <= 3
        },
{
    if let Ok(keys) = derived_keys(t, lcid, default_script) {
        if lcid is None {
            let specific = t.with_script(fallback_script(t, default_script));
            let own = set![canonical(t), canonical(specific)];
            assert(own.len() <= 2) by {
                assert(set![canonical(t)].len() == 1);
            }
            assert(own.contains(canonical(t)));
            assert(own.len() >= 1) by {
                if own.len() == 0 {
                    assert(own =~= Set::<Seq<char>>::empty());
                }
            }
            if keys.len() == 0 {
                assert(keys =~= Set::<Seq<char>>::empty());
            }
        }
    }
}

/// The sorted keys of a tag, given what the two lookups returned for it.
pub fn keys_for(tag: LanguageTag, lcid: Option<u32>, default_script: Option<String>) -> (r: Result<
    Vec<String>,
    Error,
>)
    ensures
        match r {
            Ok(v) => derived_keys(tag@, lcid, opt_view(default_script)) matches Ok(keys)
                && is_key_list(v@, keys),
            Err(e) => derived_keys(tag@, lcid, opt_view(default_script)) == Err::<
                Set<Seq<char>>,
                Error,
            >(e),
        },
{
    let ghost t = tag@;
    let mut keys: Vec<String> = Vec::new();
    assert(views(keys@).to_set() =~= Set::<Seq<char>>::empty());
    insert_key(&mut keys, tag.canonical());
    assert(views(keys@).to_set() =~= set![canonical(t)]);
    if lcid.is_some() {
        return Ok(keys);
    }
    let mut tag = tag;
    if tag.script.is_none() {
        match default_script {
            None => {
                return Err(Error::NoDefaultScript);
            },
            Some(d) => {
                tag.script = parse_script(d.as_str());
            },
        }
    }
    let ghost specific = t.with_script(fallback_script(t, opt_view(default_script)));
    assert(tag@ == specific);
    if tag.region.is_none() {
        proof {
            reveal_strlit("001");
            assert("001"@ =~= neutral_region());
        }
        tag.region = Some(String::from_str("001"));
        assert(tag@ == specific.with_region(Some(neutral_region())));
        insert_key(&mut keys, tag.canonical());
        tag.region = None;
        assert(tag@ == specific);
    }
    insert_key(&mut keys, tag.canonical());
    proof {
        let own = set![canonical(t), canonical(specific)];
        if t.region is None {
            let neutral = canonical(specific.with_region(Some(neutral_region())));
            assert(views(keys@).to_set() =~= own.insert(neutral));
        } else {
            assert(views(keys@).to_set() =~= own);
        }
    }
    Ok(keys)
}

/// The keys of a tag: what `derived_keys` makes of the tag and of what the
/// two lookups return for it.
pub open spec fn tag_keys(t: TagParts) -> Result<Set<Seq<char>>, Error> {
    derived_keys(
        t,
        legacy_locale_id(t.language, t.script, t.region),
        default_script_of(t.language),
    )
}

/// The keys of a tag given as a string; a string that is no tag has none.
pub open spec fn string_keys(s: Seq<char>) -> Result<Set<Seq<char>>, Error> {
    match langid_parts(s) {
        Some(t) => tag_keys(t),
        None => Err(Error::InvalidLanguageTag),
    }
}

/// The sorted keys under which a tag must be registered.
pub fn derive_lang_id_keys(lang_id: LanguageTag) -> (r: Result<Vec<String>, Error>)
    requires
        lang_id.well_formed(),
    ensures
        match r {
            Ok(v) => tag_keys(lang_id@) matches Ok(keys) && is_key_list(v@, keys),
            Err(e) => tag_keys(lang_id@) == Err::<Set<Seq<char>>, Error>(e),
        },
{
    let script: Option<&str> = match &lang_id.script {
        Some(s) => Some(s.as_str()),
        None => None,
    };
    let region: Option<&str> = match &lang_id.region {
        Some(s) => Some(s.as_str()),
        None => None,
    };
    let lcid: Option<u32> = lookup_lcid(lang_id.language.as_str(), script, region);
    let default_script: Option<String> = if lcid.is_none() && lang_id.script.is_none() {
        lookup_default_script(lang_id.language.as_str())
    } else {
        None
    };
    keys_for(lang_id, lcid, default_script)
}

/// The sorted keys of a tag given as a string.
pub fn derive_keys(tag: &str) -> (r: Result<Vec<String>, Error>)
    ensures
        match r {
            Ok(v) => string_keys(tag@) matches Ok(keys) && is_key_list(v@, keys),
            Err(e) => string_keys(tag@) == Err::<Set<Seq<char>>, Error>(e),
        },
{
    match LanguageTag::parse(tag) {
        Ok(lang_id) => derive_lang_id_keys(lang_id),
        Err(_) => Err(Error::InvalidLanguageTag),
    }
}

/// Registers the dictionary at `path` in the central table under every key
/// of `tag`. Where the tag has no keys the table stays as it is.
pub fn register(store: &mut Table<StoredValue>, tag: &str, path: &str) -> (r: Result<(), Error>)
    requires
        old(store).wf(),
    ensures
        final(store).wf(),
        match r {
            Ok(()) => string_keys(tag@) matches Ok(keys) && final(store).map() == with_paths(
                old(store).map(),
                keys,
                path@,
            ),
            Err(e) => string_keys(tag@) == Err::<Set<Seq<char>>, Error>(e) && final(store).map()
                == old(store).map(),
        },
{
    match derive_keys(tag) {
        Ok(keys) => {
            register_langs(store, &keys, path);
            Ok(())
        },
        Err(e) => Err(e),
    }
}

} // verus!
