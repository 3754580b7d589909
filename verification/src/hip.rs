//! What the driver of the device decides before and after it calls the runtime.

use vstd::prelude::*;

use crate::names::joined;

verus! {

/// What went wrong on the device.
#[derive(Debug)]
pub struct HipError {
    pub code: u32,
    pub message: String,
}

/// The code for success.
pub const HIP_SUCCESS: u32 = 0;

/// A call's result code. Every code but [`HIP_SUCCESS`] is an error.
pub fn check(code: u32, context: &str) -> (r: Result<(), HipError>)
    ensures
        match r {
            Ok(()) => code == HIP_SUCCESS,
            Err(e) => code != HIP_SUCCESS && e.code == code && e.message@ == context@,
        },
{
    if code == HIP_SUCCESS {
        Ok(())
    } else {
        Err(HipError { code, message: context.to_owned() })
    }
}

/// Division that rounds toward zero.
pub open spec fn toward_zero(a: int, b: int) -> int {
    if a >= 0 {
        a / b
    } else {
        -((-a) / b)
    }
}

/// Major and minor number of a runtime version, which is written as
/// `major * 10000000 + minor * 100000 + patch`.
pub fn runtime_version(version: i32) -> (r: (i32, i32))
    ensures
        r.0 == toward_zero(version as int, 10_000_000),
        r.1 == toward_zero(version - 10_000_000 * r.0, 100_000),
{
    let v: i64 = version as i64;
    if v >= 0 {
        let major: i64 = v / 10_000_000;
        let minor: i64 = (v - 10_000_000 * major) / 100_000;
        (major as i32, minor as i32)
    } else {
        let w: i64 = 0 - v;
        let major: i64 = w / 10_000_000;
        let minor: i64 = (w - 10_000_000 * major) / 100_000;
        ((0 - major) as i32, (0 - minor) as i32)
    }
}

/// A version is read back as the numbers that it was written with.
pub proof fn law_version_reads_back(major: int, minor: int, patch: int)
    requires
        0 <= major,
        0 <= minor < 100,
        0 <= patch < 100_000,
    ensures
        ({
            let v = major * 10_000_000 + minor * 100_000 + patch;
            &&& toward_zero(v, 10_000_000) == major
            &&& toward_zero(v - 10_000_000 * toward_zero(v, 10_000_000), 100_000) == minor
        }),
{
}

// Ranges.

/// `len` bytes from `offset` lie inside `size` bytes.
pub fn fits(size: usize, offset: usize, len: usize) -> (r: bool)
    ensures
        r == (offset + len <= size),
{
    offset <= size && len <= size - offset
}

/// A copy between two buffers stays inside both.
pub fn copy_fits(
    dst_size: usize,
    dst_offset: usize,
    src_size: usize,
    src_offset: usize,
    len: usize,
) -> (r: bool)
    ensures
        r == (dst_offset + len <= dst_size && src_offset + len <= src_size),
{
    fits(dst_size, dst_offset, len) && fits(src_size, src_offset, len)
}

/// A planned copy that stays inside its buffers is one that the driver carries out.
pub proof fn law_planned_copies_fit<B, W>(
    dst: B,
    dst_off: usize,
    src: B,
    src_off: usize,
    bytes: usize,
    size: spec_fn(B) -> int,
)
    ensures
        crate::device::in_bounds(
            crate::device::Op::<B, W>::Copy { dst, dst_off, src, src_off, bytes },
            size,
        ) == (dst_off + bytes <= size(dst) && src_off + bytes <= size(src)),
{
}

// Texts.

/// A text can be handed to the runtime: it does not hold its end mark.
pub open spec fn plain(text: Seq<char>) -> bool {
    forall|i: int| 0 <= i < text.len() ==> #[trigger] text[i] != '\0'
}

/// A text for the runtime, or an error with code 1 and the given message.
pub fn c_text(text: &str, message: &str) -> (r: Result<(), HipError>)
    ensures
        match r {
            Ok(()) => plain(text@),
            Err(e) => !plain(text@) && e.code == 1 && e.message@ == message@,
        },
{
    let n: usize = text.unicode_len();
    let mut i: usize = 0;
    while i < n
        invariant
            i <= n == text@.len(),
            forall|k: int| 0 <= k < i ==> #[trigger] text@[k] != '\0',
        decreases n - i,
    {
        if text.get_char(i) == '\0' {
            return Err(HipError { code: 1, message: message.to_owned() });
        }
        i = i + 1;
    }
    Ok(())
}

/// "gfx" stands at a place.
pub open spec fn gfx_at(text: Seq<char>, p: int) -> bool {
    &&& 0 <= p
    &&& p + 3 <= text.len()
    &&& text[p] == 'g'
    &&& text[p + 1] == 'f'
    &&& text[p + 2] == 'x'
}

/// The first place where "gfx" stands, from `from` on; the length if there is none.
pub open spec fn first_gfx(text: Seq<char>, from: int) -> int
    decreases text.len() - from,
{
    if from >= text.len() {
        text.len() as int
    } else if gfx_at(text, from) {
        from
    } else {
        first_gfx(text, from + 1)
    }
}

/// What ends the name of an architecture.
pub open spec fn ends_name(c: char) -> bool {
    c == '\0' || c == ':' || c == ' '
}

/// The first end of a name, from `from` on; the length if there is none.
pub open spec fn name_end(text: Seq<char>, from: int) -> int
    decreases text.len() - from,
{
    if from >= text.len() {
        text.len() as int
    } else if ends_name(text[from]) {
        from
    } else {
        name_end(text, from + 1)
    }
}

/// The architecture in a text: from the first "gfx" to the end of the name.
pub open spec fn arch_in(text: Seq<char>) -> Option<Seq<char>> {
    let p = first_gfx(text, 0);
    if p < text.len() {
        Some(text.subrange(p, name_end(text, p)))
    } else {
        None
    }
}

proof fn lemma_name_end(text: Seq<char>, from: int)
    requires
        0 <= from <= text.len(),
    ensures
        from <= name_end(text, from) <= text.len(),
    decreases text.len() - from,
{
    if from < text.len() && !ends_name(text[from]) {
        lemma_name_end(text, from + 1);
    }
}

/// The architecture in a text: from the first "gfx" to the end of the name.
pub fn find_arch(text: &str) -> (r: Option<String>)
    ensures
        match r {
            Some(s) => arch_in(text@) == Some(s@),
            None => arch_in(text@) is None,
        },
{
    let n: usize = text.unicode_len();
    let mut p: usize = 0;
    while p < n && !(n - p >= 3 && text.get_char(p) == 'g' && text.get_char(p + 1) == 'f'
        && text.get_char(p + 2) == 'x')
        invariant
            p <= n == text@.len(),
            first_gfx(text@, 0) == first_gfx(text@, p as int),
        decreases n - p,
    {
        p = p + 1;
    }
    if p == n {
        return None;
    }
    let mut end: usize = p;
    while end < n && !(text.get_char(end) == '\0' || text.get_char(end) == ':' || text.get_char(end)
        == ' ')
        invariant
            p <= end <= n == text@.len(),
            name_end(text@, p as int) == name_end(text@, end as int),
        decreases n - end,
    {
        end = end + 1;
    }
    Some(text.substring_char(p, end).to_owned())
}

/// The text that bytes hold, with a mark in place of what is not text.
pub uninterp spec fn lossy(bytes: Seq<u8>) -> Seq<char>;

/// Calls [`String::from_utf8_lossy`]. What it returns depends on the bytes alone;
/// where the marks fall is left to it.
#[verifier::external_body]
fn lossy_text(bytes: &[u8]) -> (r: String)
    ensures
        r@ == lossy(bytes@),
{
    String::from_utf8_lossy(bytes).into_owned()
}

/// The bytes up to the first zero, or all of them.
pub open spec fn until_zero(bytes: Seq<u8>, from: int) -> int
    decreases bytes.len() - from,
{
    if from >= bytes.len() {
        bytes.len() as int
    } else if bytes[from] == 0 {
        from
    } else {
        until_zero(bytes, from + 1)
    }
}

proof fn lemma_until_zero(bytes: Seq<u8>, from: int)
    requires
        0 <= from <= bytes.len(),
    ensures
        from <= until_zero(bytes, from) <= bytes.len(),
    decreases bytes.len() - from,
{
    if from < bytes.len() && bytes[from] != 0 {
        lemma_until_zero(bytes, from + 1);
    }
}

/// The architecture that a text starts with, up to the first colon.
pub open spec fn arch_at_start(text: Seq<char>) -> Option<Seq<char>> {
    if gfx_at(text, 0) {
        Some(text.subrange(0, colon(text, 0)))
    } else {
        None
    }
}

/// The first colon, from `from` on; the length if there is none.
pub open spec fn colon(text: Seq<char>, from: int) -> int
    decreases text.len() - from,
{
    if from >= text.len() {
        text.len() as int
    } else if text[from] == ':' {
        from
    } else {
        colon(text, from + 1)
    }
}

/// The architecture that a text starts with, up to the first colon.
pub fn leading_arch(text: &str) -> (r: Option<String>)
    ensures
        match r {
            Some(s) => arch_at_start(text@) == Some(s@),
            None => arch_at_start(text@) is None,
        },
{
    let n: usize = text.unicode_len();
    if !(n >= 3 && text.get_char(0) == 'g' && text.get_char(1) == 'f' && text.get_char(2) == 'x') {
        return None;
    }
    let mut end: usize = 0;
    while end < n && text.get_char(end) != ':'
        invariant
            end <= n == text@.len(),
            colon(text@, 0) == colon(text@, end as int),
        decreases n - end,
    {
        end = end + 1;
    }
    Some(text.substring_char(0, end).to_owned())
}

/// The architecture that a block of device properties names, whatever its layout:
/// "gfx" anywhere in it, else at the start of its first text, else "unknown".
pub open spec fn arch_of(props: Seq<u8>) -> Seq<char> {
    match arch_in(lossy(props)) {
        Some(s) => s,
        None => match arch_at_start(lossy(props.subrange(0, until_zero(props, 0)))) {
            Some(s) => s,
            None => "unknown"@,
        },
    }
}

/// The architecture that a block of device properties names.
pub fn get_arch(props: &[u8]) -> (r: String)
    ensures
        r@ == arch_of(props@),
{
    match find_arch(lossy_text(props).as_str()) {
        Some(s) => return s,
        None => {},
    }
    let n: usize = props.len();
    let mut end: usize = 0;
    while end < n && props[end] != 0
        invariant
            end <= n == props@.len(),
            until_zero(props@, 0) == until_zero(props@, end as int),
        decreases n - end,
    {
        end = end + 1;
    }
    let first: &[u8] = vstd::slice::slice_subrange(props, 0, end);
    match leading_arch(lossy_text(first).as_str()) {
        Some(s) => s,
        None => "unknown".to_owned(),
    }
}

/// A found name starts with "gfx" and holds no end mark.
pub proof fn law_arch_is_a_name(text: Seq<char>)
    requires
        arch_in(text) is Some,
    ensures
        ({
            let s = arch_in(text)->0;
            &&& gfx_at(s, 0)
            &&& forall|i: int| 0 <= i < s.len() ==> !ends_name(#[trigger] s[i])
        }),
{
    let p = first_gfx(text, 0);
    lemma_first_gfx(text, 0);
    lemma_name_end(text, p);
    assert(name_end(text, p) >= p + 3) by {
        reveal_with_fuel(name_end, 4);
        lemma_name_end(text, p + 3);
    }
    let s = arch_in(text)->0;
    assert forall|i: int| 0 <= i < s.len() implies !ends_name(#[trigger] s[i]) by {
        lemma_no_end(text, p, p + i);
    }
}

proof fn lemma_first_gfx(text: Seq<char>, from: int)
    requires
        0 <= from <= text.len(),
    ensures
        from <= first_gfx(text, from) <= text.len(),
        first_gfx(text, from) < text.len() ==> gfx_at(text, first_gfx(text, from)),
    decreases text.len() - from,
{
    if from < text.len() && !gfx_at(text, from) {
        lemma_first_gfx(text, from + 1);
    }
}

proof fn lemma_no_end(text: Seq<char>, from: int, i: int)
    requires
        0 <= from <= i < text.len(),
    ensures
        i < name_end(text, from) ==> !ends_name(text[i]),
    decreases text.len() - from,
{
    if from < i && !ends_name(text[from]) {
        lemma_no_end(text, from + 1, i);
    }
}

// The runtime's files.

/// The names under which the runtime is looked for on Windows, in order: in the
/// user's directory and in the SDK's, then on the path, then the versioned names.
pub open spec fn windows_names(user: Seq<char>, sdk: Seq<char>) -> Seq<Seq<char>> {
    let u = user + "\\.hipfire\\runtime"@;
    let s = sdk + "\\bin"@;
    seq![
        u + "\\amdhip64.dll"@,
        s + "\\amdhip64.dll"@,
        "amdhip64.dll"@,
        "amdhip64_7.dll"@,
        "amdhip64_6.dll"@,
        u + "\\amdhip64_7.dll"@,
        u + "\\amdhip64_6.dll"@,
        s + "\\amdhip64_7.dll"@,
        s + "\\amdhip64_6.dll"@,
    ]
}

/// The names under which the runtime is looked for, in order.
pub open spec fn names_for(windows: bool, user: Seq<char>, sdk: Seq<char>) -> Seq<Seq<char>> {
    if windows {
        windows_names(user, sdk)
    } else {
        seq!["libamdhip64.so"@]
    }
}

pub open spec fn texts(v: Seq<String>) -> Seq<Seq<char>> {
    Seq::new(v.len(), |i: int| v[i]@)
}

/// The names under which the runtime is looked for, in order.
pub fn library_names(windows: bool, user: &str, sdk: &str) -> (r: Vec<String>)
    ensures
        texts(r@) == names_for(windows, user@, sdk@),
{
    if !windows {
        let r: Vec<String> = vec!["libamdhip64.so".to_owned()];
        assert(texts(r@) =~= names_for(windows, user@, sdk@));
        return r;
    }
    let u: String = joined(user, "\\.hipfire\\runtime");
    let s: String = joined(sdk, "\\bin");
    let r: Vec<String> = vec![
        joined(u.as_str(), "\\amdhip64.dll"),
        joined(s.as_str(), "\\amdhip64.dll"),
        "amdhip64.dll".to_owned(),
        "amdhip64_7.dll".to_owned(),
        "amdhip64_6.dll".to_owned(),
        joined(u.as_str(), "\\amdhip64_7.dll"),
        joined(u.as_str(), "\\amdhip64_6.dll"),
        joined(s.as_str(), "\\amdhip64_7.dll"),
        joined(s.as_str(), "\\amdhip64_6.dll"),
    ];
    assert(texts(r@) =~= names_for(windows, user@, sdk@));
    r
}

} // verus!
