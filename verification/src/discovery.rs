//! Discovery of the kernel's direct-map base: decoding the kernel-pointer
//! exposure policy, selecting the symbol listing it allows, and scanning
//! that listing for the `page_offset_base` symbol.

use vstd::prelude::*;
use vstd::string::*;
use vstd::utf8::encode_utf8;
use crate::lex::{
    spec_first_token, spec_trim, spec_valid_hex_u64, spec_hex_value, spec_valid_dec_u8,
    spec_dec_value, spec_contains_sub, first_token, trim_ascii, contains_subseq, parse_hex_u64,
    parse_dec_u8,
};

verus! {

/// The runtime symbol listing.
pub const PROC_KALLSYMS: &'static str = "/proc/kallsyms";

/// The kernel-pointer restriction toggle.
pub const PROC_KPTR_RESTRICT: &'static str = "/proc/sys/kernel/kptr_restrict";

/// The kernel release string, naming the on-disk symbol map.
pub const PROC_OSRELEASE: &'static str = "/proc/sys/kernel/osrelease";

/// Path prefix of the on-disk symbol map; the kernel release completes it.
pub const SYSTEMMAP_PREFIX: &'static str = "/boot/System.map-";

/// The symbol holding the direct-map base address.
pub const PAGE_OFFSET_BASE: &'static str = "page_offset_base";

/// The kernel's pointer-exposure policy: whether symbol addresses are
/// visible to everyone, to privileged callers only, or to nobody.
#[derive(Clone, Copy, Debug, PartialEq, Eq, Structural)]
pub enum KptrRestrict {
    Unrestricted,
    Partial,
    Full,
}

/// What can go wrong while discovering the direct-map base.
#[derive(Clone, Copy, Debug, PartialEq, Eq, Structural)]
pub enum DiscoveryError {
    /// The restriction toggle held something other than 0, 1 or 2.
    InvalidKptrRestrict,
    /// A symbol line's address did not parse as a 64-bit hexadecimal number.
    InvalidSymbolAddress,
}

/// The policy a toggle value decodes to; values other than 0, 1 and 2 are
/// refused.
pub open spec fn spec_kptr_restrict_of(value: u8) -> Result<KptrRestrict, DiscoveryError> {
    if value == 0 {
        Result::Ok(KptrRestrict::Unrestricted)
    } else if value == 1 {
        Result::Ok(KptrRestrict::Partial)
    } else if value == 2 {
        Result::Ok(KptrRestrict::Full)
    } else {
        Result::Err(DiscoveryError::InvalidKptrRestrict)
    }
}

impl KptrRestrict {
    /// Decodes the kernel's restriction toggle value.
    pub fn try_from(value: u8) -> (r: Result<KptrRestrict, DiscoveryError>)
        ensures
            r == spec_kptr_restrict_of(value),
    {
        match value {
            0 => Result::Ok(KptrRestrict::Unrestricted),
            1 => Result::Ok(KptrRestrict::Partial),
            2 => Result::Ok(KptrRestrict::Full),
            _ => Result::Err(DiscoveryError::InvalidKptrRestrict),
        }
    }
}

/// The policy the restriction toggle file's content decodes to: its
/// whitespace-trimmed text must be a decimal 0, 1 or 2.
pub open spec fn spec_parse_kptr_restrict(s: Seq<u8>) -> Result<KptrRestrict, DiscoveryError> {
    let t = spec_trim(s);
    if spec_valid_dec_u8(t) {
        spec_kptr_restrict_of(spec_dec_value(t) as u8)
    } else {
        Result::Err(DiscoveryError::InvalidKptrRestrict)
    }
}

/// Decodes the content of the kernel-pointer restriction toggle file.
pub fn parse_kptr_restrict(content: &str) -> (r: Result<KptrRestrict, DiscoveryError>)
    ensures
        r == spec_parse_kptr_restrict(content.spec_bytes()),
{
    let t: &[u8] = trim_ascii(content.as_bytes());
    match parse_dec_u8(t) {
        Some(v) => KptrRestrict::try_from(v),
        None => Result::Err(DiscoveryError::InvalidKptrRestrict),
    }
}

/// The symbol listing a policy allows the caller to read.
#[derive(Clone, Copy, Debug, PartialEq, Eq, Structural)]
pub enum SymbolSource {
    /// The on-disk map at `SYSTEMMAP_PREFIX` plus the kernel release.
    SystemMap,
    /// The runtime listing at `PROC_KALLSYMS`.
    Kallsyms,
}

/// Discovery selection: a fully restricted kernel hides kallsyms addresses,
/// so the on-disk symbol map must be read instead; otherwise the runtime
/// listing serves.
pub fn select_symbol_source(policy: KptrRestrict) -> (s: SymbolSource)
    ensures
        policy == KptrRestrict::Full ==> s == SymbolSource::SystemMap,
        policy != KptrRestrict::Full ==> s == SymbolSource::Kallsyms,
{
    match policy {
        KptrRestrict::Full => SymbolSource::SystemMap,
        _ => SymbolSource::Kallsyms,
    }
}

/// The symbol source the restriction toggle file's content selects, or the
/// error its decoding raises.
pub open spec fn spec_symbol_source_of(s: Seq<u8>) -> Result<SymbolSource, DiscoveryError> {
    match spec_parse_kptr_restrict(s) {
        Result::Ok(KptrRestrict::Full) => Result::Ok(SymbolSource::SystemMap),
        Result::Ok(_) => Result::Ok(SymbolSource::Kallsyms),
        Result::Err(e) => Result::Err(e),
    }
}

/// Decodes the restriction toggle file's content and selects the symbol
/// listing it allows.
pub fn discover_symbol_source(content: &str) -> (r: Result<SymbolSource, DiscoveryError>)
    ensures
        r == spec_symbol_source_of(content.spec_bytes()),
{
    match parse_kptr_restrict(content) {
        Result::Ok(policy) => Result::Ok(select_symbol_source(policy)),
        Result::Err(e) => Result::Err(e),
    }
}

/// Index just past the last non-whitespace character of `s` at or before
/// `e`.
pub open spec fn spec_trim_end_chars(s: Seq<char>, e: int) -> int
    decreases e,
{
    if e <= 0 {
        0
    } else if spec_is_ws_char(s[e - 1]) {
        spec_trim_end_chars(s, e - 1)
    } else {
        e
    }
}

/// ASCII whitespace, as a character.
pub open spec fn spec_is_ws_char(c: char) -> bool {
    c == ' ' || c == '\t' || c == '\n' || c == '\r' || c == '\x0b' || c == '\x0c'
}

fn is_ws_char(c: char) -> (r: bool)
    ensures
        r == spec_is_ws_char(c),
{
    c == ' ' || c == '\t' || c == '\n' || c == '\r' || c == '\x0b' || c == '\x0c'
}

/// The path of the on-disk symbol map for a kernel release: the fixed
/// prefix, then the release string with its trailing whitespace removed.
pub fn system_map_path(os_release: &str) -> (p: String)
    ensures
        p@ == SYSTEMMAP_PREFIX@ + os_release@.take(
            spec_trim_end_chars(os_release@, os_release@.len() as int),
        ),
{
    let n: usize = os_release.unicode_len();
    let mut e: usize = n;
    while e > 0 && is_ws_char(os_release.get_char(e - 1))
        invariant
            0 <= e <= n,
            n == os_release@.len(),
            spec_trim_end_chars(os_release@, n as int) == spec_trim_end_chars(
                os_release@,
                e as int,
            ),
        decreases e,
    {
        e = e - 1;
    }
    let trimmed: &str = os_release.substring_char(0, e);
    let mut p: String = String::new();
    p.append(SYSTEMMAP_PREFIX);
    p.append(trimmed);
    p
}

/// The direct-map base a symbol listing yields: the first line naming the
/// symbol has its first token read as a hexadecimal address; a listing
/// without the symbol yields 0 (the kernel is taken to run without base
/// randomization).
pub open spec fn spec_symbol_scan(lines: Seq<Seq<u8>>, sym: Seq<u8>) -> Result<
    u64,
    DiscoveryError,
>
    decreases lines.len(),
{
    if lines.len() == 0 {
        Result::Ok(0u64)
    } else if spec_contains_sub(lines[0], sym) {
        let t = spec_first_token(lines[0]);
        if spec_valid_hex_u64(t) {
            Result::Ok(spec_hex_value(t) as u64)
        } else {
            Result::Err(DiscoveryError::InvalidSymbolAddress)
        }
    } else {
        spec_symbol_scan(lines.drop_first(), sym)
    }
}

/// Scans the lines of a symbol listing for `page_offset_base` and returns
/// its address; 0 when the symbol does not occur.
pub fn get_page_offset_base_address(lines: &Vec<String>) -> (r: Result<u64, DiscoveryError>)
    ensures
        r == spec_symbol_scan(
            lines@.map_values(|l: String| encode_utf8(l@)),
            PAGE_OFFSET_BASE.spec_bytes(),
        ),
{
    let ghost ml = lines@.map_values(|l: String| encode_utf8(l@));
    let pat: &[u8] = PAGE_OFFSET_BASE.as_bytes();
    let n: usize = lines.len();
    proof {
        assert(ml.skip(0) =~= ml);
    }
    let mut i: usize = 0;
    while i < n
        invariant
            0 <= i <= n,
            n == lines@.len(),
            ml == lines@.map_values(|l: String| encode_utf8(l@)),
            pat@ == PAGE_OFFSET_BASE.spec_bytes(),
            spec_symbol_scan(ml.skip(i as int), pat@) == spec_symbol_scan(ml, pat@),
            forall|j: int| 0 <= j < i ==> !spec_contains_sub(#[trigger] ml[j], pat@),
        decreases n - i,
    {
        let line: &String = &lines[i];
        let lb: &[u8] = line.as_str().as_bytes();
        if contains_subseq(lb, pat) {
            proof {
                assert(ml.skip(i as int)[0] == lb@);
            }
            let t: &[u8] = first_token(lb);
            return match parse_hex_u64(t) {
                Some(v) => Result::Ok(v),
                None => Result::Err(DiscoveryError::InvalidSymbolAddress),
            };
        }
        i = i + 1;
        proof {
            assert(ml.skip(i - 1).drop_first() =~= ml.skip(i as int));
            assert(ml.skip(i - 1)[0] == ml[i - 1]);
        }
    }
    proof {
        assert(ml.skip(n as int) =~= Seq::<Seq<u8>>::empty());
    }
    Result::Ok(0)
}

} // verus!
