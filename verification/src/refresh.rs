//! Which office installations there are, and the configuration roots that
//! each of them reads.

use crate::tag::is_digit;
use crate::text::{opt_view, relate, starts_with, views, Relation};
use vstd::prelude::*;
use vstd::string::*;

verus! {

pub const MACHINE_ROOT: &'static str = r"SOFTWARE\";

pub const CLICK_TO_RUN_ROOT: &'static str =
    r"SOFTWARE\Microsoft\Office\ClickToRun\REGISTRY\MACHINE\Software\";

pub const WOW64_NODE: &'static str = r"Wow6432Node\";

pub const OFFICE_NODE: &'static str = r"Microsoft\Office\";

pub const SETTINGS_NODE: &'static str = r"\User Settings\WinDivvun";

pub const OFFICE_PUBLISHER: &'static str = "Microsoft Corporation";

pub const OFFICE_NAME: &'static str = "Microsoft Office";

pub const LIBREOFFICE_NAME: &'static str = "LibreOffice";

/// How an office installation came onto the machine.
#[derive(Clone, Copy, Debug, PartialEq, Eq, Structural)]
pub enum InstallMethod {
    Click2Run,
    Msi,
}

/// An office installation: how it was installed, and its major version.
#[derive(Clone, Copy, Debug, PartialEq, Eq, Structural)]
pub struct Office {
    pub variant: InstallMethod,
    pub major_version: u32,
}

/// A LibreOffice installation.
#[derive(Debug)]
pub struct LibreOffice {
    pub install_path: String,
}

/// The version as it stands in a settings path, for the versions that have
/// settings to synchronise: 14, 15 and 16.
pub open spec fn version_node(major_version: u32) -> Option<Seq<char>> {
    if major_version == 14 {
        Some("14.0"@)
    } else if major_version == 15 {
        Some("15.0"@)
    } else if major_version == 16 {
        Some("16.0"@)
    } else {
        None
    }
}

/// Where the machine-wide settings of an install method begin.
pub open spec fn method_root(variant: InstallMethod) -> Seq<char> {
    match variant {
        InstallMethod::Msi => MACHINE_ROOT@,
        InstallMethod::Click2Run => CLICK_TO_RUN_ROOT@,
    }
}

/// One settings root: the root of the install method, the node of 32-bit
/// applications on a 64-bit system where `wow64` asks for it, and the
/// settings of the version.
pub open spec fn settings_path(variant: InstallMethod, version: Seq<char>, wow64: bool) -> Seq<
    char,
> {
    method_root(variant) + (if wow64 {
        WOW64_NODE@
    } else {
        Seq::empty()
    }) + OFFICE_NODE@ + version + SETTINGS_NODE@
}

/// The settings roots of an installation: none for a version without
/// settings; else the native root, and with `wow64` also the root of 32-bit
/// applications.
pub open spec fn settings_paths(office: Office, wow64: bool) -> Option<Seq<Seq<char>>> {
    match version_node(office.major_version) {
        None => None,
        Some(version) => Some(
            if wow64 {
                seq![
                    settings_path(office.variant, version, false),
                    settings_path(office.variant, version, true),
                ]
            } else {
                seq![settings_path(office.variant, version, false)]
            },
        ),
    }
}

/// The installations that are looked for: installer versions 10 to 16, and
/// click-to-run versions 15 and 16.
pub open spec fn supported_offices() -> Seq<Office> {
    Seq::new(7, |i: int| Office { variant: InstallMethod::Msi, major_version: (10 + i) as u32 })
        + Seq::new(
        2,
        |i: int| Office { variant: InstallMethod::Click2Run, major_version: (15 + i) as u32 },
    )
}

/// The views of an optional list of strings.
pub open spec fn opt_views(o: Option<Vec<String>>) -> Option<Seq<Seq<char>>> {
    match o {
        Some(v) => Some(views(v@)),
        None => None,
    }
}

/// Builds one settings root.
fn build_settings_path(variant: InstallMethod, version: &str, wow64: bool) -> (r: String)
    ensures
        r@ == settings_path(variant, version@, wow64),
{
    let mut out: String = match variant {
        InstallMethod::Msi => String::from_str(MACHINE_ROOT),
        InstallMethod::Click2Run => String::from_str(CLICK_TO_RUN_ROOT),
    };
    if wow64 {
        out.append(WOW64_NODE);
    }
    assert(out@ =~= method_root(variant) + (if wow64 {
        WOW64_NODE@
    } else {
        Seq::empty()
    }));
    out.append(OFFICE_NODE);
    out.append(version);
    out.append(SETTINGS_NODE);
    out
}

impl Office {
    /// The installations that are looked for.
    pub fn all_supported() -> (r: Vec<Office>)
        ensures
            r@ == supported_offices(),
    {
        let mut out: Vec<Office> = Vec::new();
        let mut i: u32 = 10;
        while i <= 16
            invariant
                10 <= i <= 17,
                out@.len() == i - 10,
                forall|k: int|
                    0 <= k < out@.len() ==> out@[k] == (Office {
                        variant: InstallMethod::Msi,
                        major_version: (10 + k) as u32,
                    }),
            decreases 17 - i,
        {
            out.push(Office { variant: InstallMethod::Msi, major_version: i });
            i = i + 1;
        }
        let mut j: u32 = 15;
        while j <= 16
            invariant
                15 <= j <= 17,
                out@.len() == 7 + (j - 15),
                forall|k: int|
                    0 <= k < 7 ==> out@[k] == (Office {
                        variant: InstallMethod::Msi,
                        major_version: (10 + k) as u32,
                    }),
                forall|k: int|
                    7 <= k < out@.len() ==> out@[k] == (Office {
                        variant: InstallMethod::Click2Run,
                        major_version: (15 + (k - 7)) as u32,
                    }),
            decreases 17 - j,
        {
            out.push(Office { variant: InstallMethod::Click2Run, major_version: j });
            j = j + 1;
        }
        assert(out@ =~= supported_offices());
        out
    }

    /// The settings roots of the installation on a 64-bit system that runs
    /// 32-bit applications too.
    pub fn user_settings_paths_wow64(&self) -> (r: Option<Vec<String>>)
        ensures
            opt_views(r) == settings_paths(*self, true),
    {
        self.user_settings_paths(true)
    }

    /// The settings roots of the installation; `has_wow64` says whether the
    /// system runs 32-bit applications beside 64-bit ones.
    pub fn user_settings_paths(&self, has_wow64: bool) -> (r: Option<Vec<String>>)
        ensures
            opt_views(r) == settings_paths(*self, has_wow64),
    {
        let version: &str = if self.major_version == 14 {
            "14.0"
        } else if self.major_version == 15 {
            "15.0"
        } else if self.major_version == 16 {
            "16.0"
        } else {
            return None;
        };
        let mut out: Vec<String> = Vec::new();
        out.push(build_settings_path(self.variant, version, false));
        if has_wow64 {
            out.push(build_settings_path(self.variant, version, true));
        }
        assert(Some(views(out@)) =~~= settings_paths(*self, has_wow64));
        Some(out)
    }
}

/// The settings roots of a list of installations, in order; an installation
/// without settings adds none.
pub open spec fn roots_of(offices: Seq<Office>, wow64: bool) -> Seq<Seq<char>>
    decreases offices.len(),
{
    if offices.len() == 0 {
        Seq::empty()
    } else {
        roots_of(offices.drop_last(), wow64) + match settings_paths(offices.last(), wow64) {
            Some(paths) => paths,
            None => Seq::empty(),
        }
    }
}

/// The roots that every cycle synchronises: the settings roots of all
/// supported installations.
pub open spec fn target_roots(wow64: bool) -> Seq<Seq<char>> {
    roots_of(supported_offices(), wow64)
}

/// Lists the roots that a cycle synchronises.
pub fn locate_roots(has_wow64: bool) -> (r: Vec<String>)
    ensures
        views(r@) == target_roots(has_wow64),
{
    let offices = Office::all_supported();
    let mut out: Vec<String> = Vec::new();
    assert(views(out@) =~= roots_of(offices@.take(0), has_wow64));
    let n: usize = offices.len();
    let mut i: usize = 0;
    while i < n
        invariant
            n == offices.len(),
            i <= n,
            views(out@) == roots_of(offices@.take(i as int), has_wow64),
        decreases n - i,
    {
        let ghost front = views(out@);
        assert(offices@.take(i + 1).drop_last() =~= offices@.take(i as int));
        assert(offices@.take(i + 1).last() == offices@[i as int]);
        match offices[i].user_settings_paths(has_wow64) {
            Some(mut paths) => {
                let ghost added = views(paths@);
                out.append(&mut paths);
                assert(views(out@) =~= front + added);
            },
            None => {
                assert(front + Seq::<Seq<char>>::empty() =~= front);
            },
        }
        i = i + 1;
    }
    assert(offices@.take(n as int) =~= offices@);
    out
}

/// An entry of the list of installed programs, as plain values.
pub struct CandidateView {
    pub publisher: Option<Seq<char>>,
    pub display_name: Option<Seq<char>>,
    pub display_version: Option<Seq<char>>,
    pub install_location: Option<Seq<char>>,
    pub click_to_run_component: Option<Seq<char>>,
}

/// An entry of the list of installed programs. The version is present only
/// where the entry holds it as a string.
#[derive(Debug)]
pub struct CandidateRegKey {
    pub publisher: Option<String>,
    pub display_name: Option<String>,
    pub display_version: Option<String>,
    pub install_location: Option<String>,
    pub click_to_run_component: Option<String>,
}

impl View for CandidateRegKey {
    type V = CandidateView;

    open spec fn view(&self) -> CandidateView {
        CandidateView {
            publisher: opt_view(self.publisher),
            display_name: opt_view(self.display_name),
            display_version: opt_view(self.display_version),
            install_location: opt_view(self.install_location),
            click_to_run_component: opt_view(self.click_to_run_component),
        }
    }
}

/// The number that a string of digits writes.
pub open spec fn digits_value(s: Seq<char>) -> nat
    decreases s.len(),
{
    if s.len() == 0 {
        0
    } else {
        digits_value(s.drop_last()) * 10 + ((s.last() as u32) - ('0' as u32)) as nat
    }
}

/// `e` is where the first segment of `s` ends: at the first full stop, or at
/// the end of a string without one.
pub open spec fn segment_end(s: Seq<char>, e: int) -> bool {
    &&& 0 <= e <= s.len()
    &&& forall|k: int| 0 <= k < e ==> #[trigger] s[k] != '.'
    &&& e < s.len() ==> s[e] == '.'
}

/// The part of a version in front of its first full stop.
pub open spec fn leading_segment(s: Seq<char>) -> Seq<char> {
    s.take(choose|e: int| segment_end(s, e))
}

/// A string has one place where its first segment ends.
pub proof fn lemma_segment_end_unique(s: Seq<char>, e1: int, e2: int)
    requires
        segment_end(s, e1),
        segment_end(s, e2),
    ensures
        e1 == e2,
{
    if e1 < e2 {
        assert(s[e1] != '.');
    } else if e2 < e1 {
        assert(s[e2] != '.');
    }
}

/// A longer string of digits writes no smaller number than its beginning.
pub proof fn lemma_digits_grow(s: Seq<char>, k: int)
    requires
        0 <= k <= s.len(),
        forall|i: int| 0 <= i < s.len() ==> is_digit(#[trigger] s[i]),
    ensures
        digits_value(s.take(k)) <= digits_value(s),
    decreases s.len() - k,
{
    if k == s.len() {
        assert(s.take(k) =~= s);
    } else {
        let front = s.drop_last();
        assert(is_digit(s[s.len() - 1]));
        if k == front.len() {
            assert(s.take(k) =~= front);
        } else {
            assert forall|i: int| 0 <= i < front.len() implies is_digit(#[trigger] front[i]) by {
                assert(front[i] == s[i]);
            }
            lemma_digits_grow(front, k);
            assert(front.take(k) =~= s.take(k));
        }
    }
}

/// A number without the plus sign that may stand in front of it.
pub open spec fn unsigned_part(s: Seq<char>) -> Seq<char> {
    if s.len() > 0 && s[0] == '+' {
        s.drop_first()
    } else {
        s
    }
}

/// A string as an unsigned 32-bit number in decimal: at least one digit and
/// nothing but digits behind an optional plus sign, and a value that fits.
pub open spec fn decimal_u32(s: Seq<char>) -> Option<u32> {
    let digits = unsigned_part(s);
    if digits.len() > 0 && (forall|i: int| 0 <= i < digits.len() ==> is_digit(#[trigger] digits[i]))
        && digits_value(digits) <= u32::MAX {
        Some(digits_value(digits) as u32)
    } else {
        None
    }
}

/// The office installation that an entry describes, if it describes one:
/// the publisher is the maker of the office suite, the name begins with the
/// name of the suite, and the version begins with a number.
pub open spec fn office_of(c: CandidateView) -> Option<Office> {
    if c.publisher != Some(OFFICE_PUBLISHER@) {
        None
    } else if !(c.display_name matches Some(name) && OFFICE_NAME@.is_prefix_of(name)) {
        None
    } else {
        match c.display_version {
            None => None,
            Some(version) => match decimal_u32(leading_segment(version)) {
                None => None,
                Some(major_version) => Some(
                    Office {
                        variant: if c.click_to_run_component is Some {
                            InstallMethod::Click2Run
                        } else {
                            InstallMethod::Msi
                        },
                        major_version,
                    },
                ),
            },
        }
    }
}

/// Where LibreOffice is installed, if an entry describes an installation of
/// it: the name begins with its name, and the entry says where it is.
pub open spec fn libreoffice_of(c: CandidateView) -> Option<Seq<char>> {
    if c.display_name matches Some(name) && LIBREOFFICE_NAME@.is_prefix_of(name) {
        c.install_location
    } else {
        None
    }
}

/// The views of a list of entries.
pub open spec fn candidate_views(v: Seq<CandidateRegKey>) -> Seq<CandidateView> {
    Seq::new(v.len(), |i: int| v[i]@)
}

/// The office installations that a list of entries describes, in order.
pub open spec fn offices_in(candidates: Seq<CandidateView>) -> Seq<Office>
    decreases candidates.len(),
{
    if candidates.len() == 0 {
        Seq::empty()
    } else {
        offices_in(candidates.drop_last()) + match office_of(candidates.last()) {
            Some(office) => seq![office],
            None => Seq::empty(),
        }
    }
}

/// Reads the number in front of the first full stop of a version.
pub fn parse_major(version: &str) -> (r: Option<u32>)
    ensures
        r == decimal_u32(leading_segment(version@)),
{
    let ghost v = version@;
    let n: usize = version.unicode_len();
    let mut end: usize = 0;
    while end < n && version.get_char(end) != '.'
        invariant
            n == v.len(),
            v == version@,
            end <= n,
            forall|k: int| 0 <= k < end ==> #[trigger] v[k] != '.',
        decreases n - end,
    {
        end = end + 1;
    }
    proof {
        assert(segment_end(v, end as int));
        lemma_segment_end_unique(v, end as int, choose|e: int| segment_end(v, e));
    }
    let ghost segment = v.take(end as int);
    assert(segment == leading_segment(v));
    let start: usize = if end > 0 && version.get_char(0) == '+' {
        1
    } else {
        0
    };
    let ghost digits = v.subrange(start as int, end as int);
    assert(digits =~= unsigned_part(segment));
    if start == end {
        return None;
    }
    let mut value: u64 = 0;
    let mut k: usize = start;
    assert(v.subrange(start as int, k as int) =~= Seq::<char>::empty());
    while k < end
        invariant
            n == v.len(),
            v == version@,
            start <= k <= end <= n,
            start < end,
            digits == v.subrange(start as int, end as int),
            digits == unsigned_part(leading_segment(v)),
            forall|i: int| start <= i < k ==> is_digit(#[trigger] v[i]),
            value == digits_value(v.subrange(start as int, k as int)),
            value <= u32::MAX,
        decreases end - k,
    {
        let c: char = version.get_char(k);
        let code: u32 = c as u32;
        if code < 48 || code > 57 {
            assert(!is_digit(digits[k - start]));
            return None;
        }
        let ghost front = v.subrange(start as int, k as int);
        let ghost more = v.subrange(start as int, k + 1);
        assert(more.drop_last() =~= front);
        assert(more.last() == c);
        let next: u64 = value * 10 + (code - 48) as u64;
        assert(next == digits_value(more));
        if next > 0xffff_ffff {
            proof {
                if forall|i: int| 0 <= i < digits.len() ==> is_digit(#[trigger] digits[i]) {
                    lemma_digits_grow(digits, k + 1 - start);
                    assert(digits.take(k + 1 - start) =~= more);
                }
            }
            return None;
        }
        value = next;
        k = k + 1;
    }
    assert(v.subrange(start as int, end as int) =~= digits);
    assert forall|i: int| 0 <= i < digits.len() implies is_digit(#[trigger] digits[i]) by {
        assert(digits[i] == v[start + i]);
    }
    Some(value as u32)
}

impl CandidateRegKey {
    /// The office installation that the entry describes, if it describes one.
    pub fn validate_office(&self) -> (r: Option<Office>)
        ensures
            r == office_of(self@),
    {
        match &self.publisher {
            None => {
                return None;
            },
            Some(publisher) => {
                match relate(publisher.as_str(), OFFICE_PUBLISHER) {
                    Relation::Same => {},
                    _ => {
                        return None;
                    },
                }
            },
        }
        match &self.display_name {
            None => {
                return None;
            },
            Some(name) => {
                if !starts_with(name.as_str(), OFFICE_NAME) {
                    return None;
                }
            },
        }
        let major_version: u32 = match &self.display_version {
            None => {
                return None;
            },
            Some(version) => match parse_major(version.as_str()) {
                None => {
                    return None;
                },
                Some(number) => number,
            },
        };
        let variant = if self.click_to_run_component.is_some() {
            InstallMethod::Click2Run
        } else {
            InstallMethod::Msi
        };
        Some(Office { variant, major_version })
    }

    /// The LibreOffice installation that the entry describes, if it
    /// describes one.
    pub fn validate_libreoffice(&self) -> (r: Option<LibreOffice>)
        ensures
            match r {
                Some(office) => libreoffice_of(self@) == Some(office.install_path@),
                None => libreoffice_of(self@) is None,
            },
    {
        match &self.display_name {
            None => {
                return None;
            },
            Some(name) => {
                if !starts_with(name.as_str(), LIBREOFFICE_NAME) {
                    return None;
                }
            },
        }
        match &self.install_location {
            None => None,
            Some(location) => Some(LibreOffice { install_path: location.clone() }),
        }
    }
}

/// The office installations among the entries of installed programs.
pub fn detect_ms_office(candidates: &Vec<CandidateRegKey>) -> (r: Vec<Office>)
    ensures
        r@ == offices_in(candidate_views(candidates@)),
{
    let ghost all = candidate_views(candidates@);
    let mut out: Vec<Office> = Vec::new();
    assert(out@ =~= offices_in(all.take(0)));
    let n: usize = candidates.len();
    let mut i: usize = 0;
    while i < n
        invariant
            all == candidate_views(candidates@),
            n == candidates.len(),
            i <= n,
            out@ == offices_in(all.take(i as int)),
        decreases n - i,
    {
        let ghost front = out@;
        assert(all.take(i + 1).drop_last() =~= all.take(i as int));
        assert(all.take(i + 1).last() == candidates[i as int]@);
        match candidates[i].validate_office() {
            Some(office) => {
                out.push(office);
                assert(out@ =~= front + seq![office]);
            },
            None => {
                assert(front + Seq::<Office>::empty() =~= front);
            },
        }
        i = i + 1;
    }
    assert(all.take(n as int) =~= all);
    out
}

} // verus!
