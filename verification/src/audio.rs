//! Audio as bytes: the extension that an upload is kept under, and samples as a WAV file.

use crate::text::{
    chars_of, is_ascii_alphanumeric, is_one_of, same, text_of, to_lower,
};
use vstd::prelude::*;

verus! {

// ---------------------------------------------------------------------------
// Extensions
// ---------------------------------------------------------------------------

/// The extensions of audio that is turned into WAV before it is transcribed.
pub open spec fn known_extensions() -> Seq<Seq<char>> {
    seq!["mp3"@, "m4a"@, "mp4"@, "wav"@, "flac"@, "ogg"@, "webm"@]
}

/// Whether audio with this extension is turned into WAV before it is transcribed.
pub fn should_normalize_audio(extension: &str) -> (r: bool)
    ensures
        r == known_extensions().contains(crate::text::lowered(extension@)),
{
    let s = chars_of(extension);
    let low = to_lower(s.as_slice());
    let list: [&str; 7] = ["mp3", "m4a", "mp4", "wav", "flac", "ogg", "webm"];
    assert(crate::text::strs(list@) =~= known_extensions());
    is_one_of(low.as_slice(), list.as_slice())
}

/// Whether a name is that of a file alone on every system: it has none of the marks that part
/// directories and drives.
pub open spec fn is_plain_name(name: Seq<char>) -> bool {
    forall|i: int|
        0 <= i < name.len() ==> (#[trigger] name[i]) != '/' && name[i] != '\\' && name[i] != ':'
}

/// Whether the last full stop of `name` is at index `k`.
pub open spec fn last_stop(name: Seq<char>, k: int) -> bool {
    &&& 0 <= k < name.len()
    &&& name[k] == '.'
    &&& forall|i: int| k < i < name.len() ==> #[trigger] name[i] != '.'
}

/// Whether `e` follows a full stop in `name`.
pub open spec fn follows_stop(name: Seq<char>, e: Seq<char>) -> bool {
    exists|k: int|
        0 <= k && k + 1 + e.len() <= name.len() && name[k] == '.' && #[trigger] name.subrange(
            k + 1,
            k + 1 + e.len(),
        ) == e
}

/// Whether a name means the same on every system: it has no mark of a drive, no backslash, and does
/// not begin as the name of another machine does.
pub open spec fn is_portable_name(name: Seq<char>) -> bool {
    &&& forall|i: int| 0 <= i < name.len() ==> (#[trigger] name[i]) != '\\' && name[i] != ':'
    &&& !(name.len() >= 2 && name[0] == '/' && name[1] == '/')
}

/// What follows the last slash of `s`.
pub open spec fn after_slash(s: Seq<char>) -> Seq<char>
    decreases s.len(),
{
    if s.len() == 0 || s.last() == '/' {
        Seq::empty()
    } else {
        after_slash(s.drop_last()).push(s.last())
    }
}

/// The last part of a portable name: what follows its last slash, where a slash at its end and the
/// part that stands for the directory itself do not count.
pub open spec fn last_part(name: Seq<char>) -> Seq<char>
    decreases name.len(),
{
    let n = name.len() as int;
    if n > 0 && name[n - 1] == '/' {
        last_part(name.take(n - 1))
    } else if n > 1 && name[n - 1] == '.' && name[n - 2] == '/' {
        last_part(name.take(n - 2))
    } else {
        after_slash(name)
    }
}

/// The extension of a part of a name: what follows its last full stop, unless that is its first
/// character. The part that stands for the directory above has none.
pub open spec fn extension_in(part: Seq<char>) -> Option<Seq<char>> {
    if part != ".."@ && exists|k: int| 0 < k && #[trigger] last_stop(part, k) {
        let k = choose|k: int| 0 < k && #[trigger] last_stop(part, k);
        Some(part.subrange(k + 1, part.len() as int))
    } else {
        None
    }
}

/// Whether `c` parts directories or drives on some system.
pub open spec fn is_mark(c: char) -> bool {
    c == '/' || c == '\\' || c == ':'
}

/// Whether `name` begins as the name of another machine or of a device does on some system.
pub open spec fn begins_elsewhere(name: Seq<char>) -> bool {
    name.len() >= 2 && (name[0] == '/' || name[0] == '\\') && (name[1] == '/' || name[1] == '\\')
}

/// Whether the last full stop of `name`, at index `k`, parts off its extension on every system: in
/// what follows the last mark it is not the first character, and that is not the part that stands
/// for the directory above.
pub open spec fn parts_extension(name: Seq<char>, k: int) -> bool {
    &&& last_stop(name, k)
    &&& k > 0 && !is_mark(name[k - 1])
    &&& forall|i: int| k < i < name.len() ==> !is_mark(#[trigger] name[i])
    &&& !(k == name.len() - 1 && name[k - 1] == '.' && (k == 1 || is_mark(name[k - 2])))
    &&& !begins_elsewhere(name)
}

/// Whether `e` can be the extension of `name`. Where a path parts its directories depends on the
/// system. A portable name has that of its last part; another name has what follows its last full
/// stop, where that parts it off on every system.
pub open spec fn can_be_extension(name: Seq<char>, e: Option<Seq<char>>) -> bool {
    &&& e is Some ==> follows_stop(name, e->0) && !e->0.contains('.')
    &&& is_portable_name(name) ==> e == extension_in(last_part(name))
    &&& forall|k: int| #[trigger]
        parts_extension(name, k) ==> e == Some(name.subrange(k + 1, name.len() as int))
}

/// `Path::extension` of `Path::new`, as text: what follows the last full stop of the last part of a
/// path, unless that part begins with its only full stop. What the last part is depends on the
/// system. The parts of a portable name are those between its slashes. Of another path the
/// extension is said where it is the same whichever of slash, backslash and colon part it; else only
/// that the extension follows a full stop and has none.
#[verifier::external_body]
fn path_extension(name: &str) -> (r: Option<String>)
    ensures
        can_be_extension(name@, crate::text::opt_view(r)),
{
    std::path::Path::new(name).extension().and_then(|e| e.to_str()).map(|e| e.to_owned())
}

/// Whether an extension is kept: up to eight letters and digits.
pub open spec fn is_kept_extension(e: Seq<char>) -> bool {
    &&& 0 < e.len() <= 8
    &&& forall|i: int| 0 <= i < e.len() ==> crate::text::is_alnum(#[trigger] e[i])
}

/// The extension for a type of content.
pub open spec fn extension_of_type(content_type: Seq<char>) -> Seq<char> {
    if content_type == "audio/mpeg"@ {
        "mp3"@
    } else if content_type == "audio/mp4"@ || content_type == "audio/x-m4a"@ {
        "m4a"@
    } else if content_type == "audio/wav"@ || content_type == "audio/x-wav"@ {
        "wav"@
    } else if content_type == "audio/ogg"@ {
        "ogg"@
    } else {
        "webm"@
    }
}

/// The extension that an upload is kept under, given that of its name and its type of content.
pub open spec fn resolved_extension(
    extension: Option<Seq<char>>,
    content_type: Option<Seq<char>>,
) -> Seq<char> {
    if extension is Some && is_kept_extension(extension->0) {
        crate::text::lowered(extension->0)
    } else {
        match content_type {
            Some(t) => extension_of_type(t),
            None => "webm"@,
        }
    }
}

fn keeps_extension(e: &[char]) -> (r: bool)
    ensures
        r == is_kept_extension(e@),
{
    if e.len() == 0 || e.len() > 8 {
        return false;
    }
    let mut i: usize = 0;
    while i < e.len()
        invariant
            i <= e@.len(),
            forall|j: int| 0 <= j < i ==> crate::text::is_alnum(#[trigger] e@[j]),
        decreases e.len() - i,
    {
        if !is_ascii_alphanumeric(e[i]) {
            return false;
        }
        i = i + 1;
    }
    true
}

/// The extension that an upload is kept under, given that of its name and its type of content.
pub fn choose_extension(extension: Option<&str>, content_type: Option<&str>) -> (r: String)
    ensures
        r@ == resolved_extension(
            crate::text::opt_str_view(extension),
            crate::text::opt_str_view(content_type),
        ),
{
    if let Some(e) = extension {
        let s = chars_of(e);
        if keeps_extension(s.as_slice()) {
            let low = to_lower(s.as_slice());
            return text_of(low.as_slice());
        }
    }
    match content_type {
        Some(t) => if same(t, "audio/mpeg") {
            "mp3".to_owned()
        } else if same(t, "audio/mp4") || same(t, "audio/x-m4a") {
            "m4a".to_owned()
        } else if same(t, "audio/wav") || same(t, "audio/x-wav") {
            "wav".to_owned()
        } else if same(t, "audio/ogg") {
            "ogg".to_owned()
        } else {
            "webm".to_owned()
        },
        None => "webm".to_owned(),
    }
}

/// Whether an upload with this name and type of content can be kept under the extension `r`.
pub open spec fn can_be_kept_under(
    file_name: Option<Seq<char>>,
    content_type: Option<Seq<char>>,
    r: Seq<char>,
) -> bool {
    match file_name {
        Some(name) => exists|e: Option<Seq<char>>|
            can_be_extension(name, e) && r == #[trigger] resolved_extension(e, content_type),
        None => r == resolved_extension(None, content_type),
    }
}

/// The extension that an upload is kept under: that of its name where it is a sound one, else the
/// one for its type of content.
pub fn resolve_audio_extension(file_name: Option<&str>, content_type: Option<&str>) -> (r: String)
    ensures
        can_be_kept_under(
            crate::text::opt_str_view(file_name),
            crate::text::opt_str_view(content_type),
            r@,
        ),
{
    match file_name {
        Some(name) => {
            let extension = path_extension(name);
            let ghost e = crate::text::opt_view(extension);
            let r = match &extension {
                Some(x) => choose_extension(Some(x.as_str()), content_type),
                None => choose_extension(None, content_type),
            };
            assert(r@ == resolved_extension(e, crate::text::opt_str_view(content_type)));
            r
        },
        None => choose_extension(None, content_type),
    }
}

/// The letters and digits of `s`.
pub open spec fn alphanumerics(s: Seq<char>) -> Seq<char> {
    s.filter(|c: char| crate::text::is_alnum(c))
}

/// The first eight letters and digits of `s`, small, or "webm" where there are none.
pub open spec fn sanitized(s: Seq<char>) -> Seq<char> {
    let kept = alphanumerics(s);
    if kept.len() == 0 {
        "webm"@
    } else if kept.len() > 8 {
        crate::text::lowered(kept.take(8))
    } else {
        crate::text::lowered(kept)
    }
}

/// The first eight letters and digits of the text, small, or "webm" where there are none.
pub fn sanitize_extension(extension: &str) -> (r: String)
    ensures
        r@ == sanitized(extension@),
{
    let s = chars_of(extension);
    let ghost p = |c: char| crate::text::is_alnum(c);
    let mut kept: Vec<char> = Vec::new();
    let mut i: usize = 0;
    proof {
        reveal_with_fuel(Seq::filter, 1);
        assert(s@.take(0).filter(p) =~= Seq::empty());
    }
    while i < s.len() && kept.len() < 8
        invariant
            i <= s@.len(),
            kept@.len() <= 8,
            p == |c: char| crate::text::is_alnum(c),
            kept@ == s@.take(i as int).filter(p),
        decreases s.len() - i,
    {
        proof {
            let longer = s@.take(i + 1);
            reveal_with_fuel(Seq::filter, 1);
            assert(longer.drop_last() =~= s@.take(i as int));
            assert(longer.last() == s@[i as int]);
        }
        if is_ascii_alphanumeric(s[i]) {
            kept.push(s[i]);
        }
        i = i + 1;
    }
    proof {
        let head = s@.take(i as int);
        let tail = s@.skip(i as int);
        assert(s@ =~= head + tail);
        Seq::filter_distributes_over_add(head, tail, p);
        if i == s@.len() {
            reveal_with_fuel(Seq::filter, 1);
            assert(tail =~= Seq::empty());
            assert(tail.filter(p) =~= Seq::empty());
            assert(alphanumerics(s@) =~= kept@);
        } else {
            assert(alphanumerics(s@).take(8) =~= kept@);
            assert(kept@.len() == 8);
            if alphanumerics(s@).len() == 8 {
                assert(alphanumerics(s@) =~= kept@);
            }
        }
    }
    if kept.len() == 0 {
        "webm".to_owned()
    } else {
        let low = to_lower(kept.as_slice());
        text_of(low.as_slice())
    }
}

proof fn lemma_after_slash(dir: Seq<char>, name: Seq<char>)
    requires
        is_plain_name(name),
    ensures
        after_slash(name) == name,
        after_slash(dir + seq!['/'] + name) == name,
    decreases name.len(),
{
    let whole = dir + seq!['/'] + name;
    if name.len() > 0 {
        let head = name.drop_last();
        assert forall|i: int| 0 <= i < head.len() implies (#[trigger] head[i]) != '/' && head[i]
            != '\\' && head[i] != ':' by {
            assert(head[i] == name[i]);
        }
        assert(name.last() == name[name.len() - 1]);
        lemma_after_slash(dir, head);
        assert(whole.drop_last() =~= dir + seq!['/'] + head);
        assert(head.push(name.last()) =~= name);
    } else {
        assert(whole.last() == '/');
        assert(name =~= Seq::empty());
    }
}

/// The extension of a part is what follows its last full stop.
proof fn lemma_extension_in(part: Seq<char>, k: int)
    requires
        part != ".."@,
        0 < k,
        last_stop(part, k),
    ensures
        extension_in(part) == Some(part.subrange(k + 1, part.len() as int)),
{
    let j = choose|j: int| 0 < j && #[trigger] last_stop(part, j);
    if j < k {
        assert(part[k] != '.');
    }
    if k < j {
        assert(part[j] != '.');
    }
}

/// An upload whose name means the same on every system is kept under one extension: that of the
/// last part of its name where it is a sound one, whatever its type of content, else the one for
/// its type of content.
pub proof fn law_names_keep_their_extension(
    name: Seq<char>,
    content_type: Option<Seq<char>>,
    r: Seq<char>,
)
    requires
        is_portable_name(name),
        can_be_kept_under(Some(name), content_type, r),
    ensures
        r == resolved_extension(extension_in(last_part(name)), content_type),
{
}

/// The directories before a plain name do not matter.
pub proof fn law_directories_do_not_matter(dir: Seq<char>, name: Seq<char>)
    requires
        is_plain_name(name),
        name.len() > 0,
        name != "."@,
    ensures
        last_part(name) == name,
        last_part(dir + "/"@ + name) == name,
{
    reveal_strlit("/");
    reveal_strlit(".");
    assert("/"@ =~= seq!['/']);
    let n = name.len() as int;
    let whole = dir + "/"@ + name;
    let m = whole.len() as int;
    lemma_after_slash(dir, name);
    assert(name[n - 1] != '/');
    assert(whole[m - 1] == name[n - 1]);
    if n > 1 {
        assert(name[n - 2] != '/');
        assert(whole[m - 2] == name[n - 2]);
    } else if name[0] == '.' {
        assert(name =~= "."@);
    }
}

/// An upload with a plain name is kept under one extension: the part of the name after its last
/// full stop where that is a sound one, else the one for its type of content.
pub proof fn law_plain_names_keep_their_extension(
    name: Seq<char>,
    content_type: Option<Seq<char>>,
    r: Seq<char>,
    k: int,
)
    requires
        is_plain_name(name),
        name != ".."@,
        0 < k,
        last_stop(name, k),
        can_be_kept_under(Some(name), content_type, r),
    ensures
        r == resolved_extension(Some(name.subrange(k + 1, name.len() as int)), content_type),
{
    reveal_strlit(".");
    law_directories_do_not_matter(Seq::empty(), name);
    lemma_extension_in(name, k);
}

/// An upload with any name whose last full stop parts off an extension on every system, whatever
/// directories and drives stand before it, is kept under that extension where it is a sound one,
/// else under the one for its type of content.
pub proof fn law_foreign_names_keep_their_extension(
    name: Seq<char>,
    content_type: Option<Seq<char>>,
    r: Seq<char>,
    k: int,
)
    requires
        parts_extension(name, k),
        can_be_kept_under(Some(name), content_type, r),
    ensures
        r == resolved_extension(Some(name.subrange(k + 1, name.len() as int)), content_type),
{
}

/// The extension that an upload is kept under is sound: to sanitize it changes nothing.
pub proof fn law_chosen_extensions_are_sound(
    file_name: Option<Seq<char>>,
    content_type: Option<Seq<char>>,
    r: Seq<char>,
)
    requires
        can_be_kept_under(file_name, content_type, r),
    ensures
        is_kept_extension(r),
        sanitized(r) == r,
{
    reveal_strlit("mp3");
    reveal_strlit("m4a");
    reveal_strlit("wav");
    reveal_strlit("ogg");
    reveal_strlit("webm");
    let e = match file_name {
        Some(name) => choose|e: Option<Seq<char>>|
            can_be_extension(name, e) && r == #[trigger] resolved_extension(e, content_type),
        None => None,
    };
    assert(r == resolved_extension(e, content_type));
    assert(is_kept_extension(r)) by {
        if e is Some && is_kept_extension(e->0) {
            assert forall|i: int| 0 <= i < r.len() implies crate::text::is_alnum(
                #[trigger] r[i],
            ) by {
                assert(crate::text::is_alnum(e->0[i]));
            }
        }
    }
    assert(crate::text::lowered(r) =~= r);
    crate::tables::lemma_filter_all(r, |c: char| crate::text::is_alnum(c));
}

/// The extension of a stored upload is made of one to eight small letters and digits, whatever was
/// sent.
pub proof fn law_stored_extensions_are_sound(s: Seq<char>)
    ensures
        is_kept_extension(sanitized(s)),
        sanitized(s) == crate::text::lowered(sanitized(s)),
{
    let p = |c: char| crate::text::is_alnum(c);
    let kept = alphanumerics(s);
    crate::tables::lemma_filter(s, p);
    reveal_strlit("webm");
    let r = sanitized(s);
    assert forall|i: int| 0 <= i < r.len() implies crate::text::is_alnum(
        #[trigger] r[i],
    ) by {
        if kept.len() > 0 {
            assert(p(kept[i]));
        }
    }
    assert(crate::text::lowered(r) =~= r);
}

// ---------------------------------------------------------------------------
// Samples as bytes
// ---------------------------------------------------------------------------

/// The two bytes of a number, the low one first.
pub open spec fn le16(n: int) -> Seq<u8> {
    seq![(n % 256) as u8, (n / 256 % 256) as u8]
}

/// The four bytes of a number, the low one first.
pub open spec fn le32(n: int) -> Seq<u8> {
    seq![
        (n % 256) as u8,
        (n / 256 % 256) as u8,
        (n / 65536 % 256) as u8,
        (n / 16777216 % 256) as u8,
    ]
}

/// The number that stands for a sample: a negative one counts from 65536 down.
pub open spec fn sample_code(x: i16) -> int {
    if x >= 0 {
        x as int
    } else {
        x + 65536
    }
}

/// The samples as bytes, two for each, the low one first.
pub open spec fn pcm_bytes(samples: Seq<i16>) -> Seq<u8>
    decreases samples.len(),
{
    if samples.len() == 0 {
        Seq::empty()
    } else {
        pcm_bytes(samples.drop_last()) + le16(sample_code(samples.last()))
    }
}

fn push_le16(out: &mut Vec<u8>, n: u16)
    ensures
        final(out)@ == old(out)@ + le16(n as int),
{
    let ghost before = out@;
    out.push((n % 256) as u8);
    out.push((n / 256 % 256) as u8);
    assert(out@ =~= before + le16(n as int));
}

fn push_le32(out: &mut Vec<u8>, n: u32)
    ensures
        final(out)@ == old(out)@ + le32(n as int),
{
    let ghost before = out@;
    out.push((n % 256) as u8);
    out.push((n / 256 % 256) as u8);
    out.push((n / 65536 % 256) as u8);
    out.push((n / 16777216 % 256) as u8);
    assert(out@ =~= before + le32(n as int));
}

fn push_pcm(out: &mut Vec<u8>, samples: &[i16])
    ensures
        final(out)@ == old(out)@ + pcm_bytes(samples@),
{
    let ghost before = out@;
    let mut i: usize = 0;
    assert(samples@.take(0) =~= Seq::empty());
    assert(before + pcm_bytes(samples@.take(0)) =~= before);
    while i < samples.len()
        invariant
            i <= samples@.len(),
            out@ == before + pcm_bytes(samples@.take(i as int)),
        decreases samples.len() - i,
    {
        let x: i16 = samples[i];
        let code: u16 = if x >= 0 {
            x as u16
        } else {
            (x as i32 + 65536) as u16
        };
        assert(code == sample_code(x));
        let ghost so_far = out@;
        push_le16(out, code);
        proof {
            let longer = samples@.take(i + 1);
            assert(longer.drop_last() =~= samples@.take(i as int));
            assert(longer.last() == x);
            assert(out@ =~= before + pcm_bytes(longer));
        }
        i = i + 1;
    }
    assert(samples@.take(samples@.len() as int) =~= samples@);
}

/// The samples as bytes, two for each, the low one first.
pub fn encode_pcm16_bytes(samples: &[i16]) -> (r: Vec<u8>)
    ensures
        r@ == pcm_bytes(samples@),
{
    let mut bytes: Vec<u8> = Vec::new();
    push_pcm(&mut bytes, samples);
    assert(bytes@ =~= pcm_bytes(samples@));
    bytes
}

/// The four characters that begin a part of a WAV file.
pub open spec fn tag(a: u8, b: u8, c: u8, d: u8) -> Seq<u8> {
    seq![a, b, c, d]
}

fn push_tag(out: &mut Vec<u8>, a: u8, b: u8, c: u8, d: u8)
    ensures
        final(out)@ == old(out)@ + tag(a, b, c, d),
{
    let ghost before = out@;
    out.push(a);
    out.push(b);
    out.push(c);
    out.push(d);
    assert(out@ =~= before + tag(a, b, c, d));
}

/// How a WAV file begins: "RIFF", the size of what follows, and "WAVE".
pub open spec fn riff_part(data_size: int) -> Seq<u8> {
    tag(0x52, 0x49, 0x46, 0x46) + le32(36 + data_size) + tag(0x57, 0x41, 0x56, 0x45)
}

/// The format of a WAV file with one channel of 16 bits, up to the sample rate: "fmt ", the size of
/// the format, the mark of plain samples, and the number of channels.
pub open spec fn format_part() -> Seq<u8> {
    tag(0x66, 0x6D, 0x74, 0x20) + le32(16) + le16(1) + le16(1)
}

/// The sample rate, the bytes of a second, and the bytes and the bits of a sample.
pub open spec fn rate_part(sample_rate: int) -> Seq<u8> {
    le32(sample_rate) + le32(sample_rate * 2) + le16(2) + le16(16)
}

/// What stands before the samples: "data" and their size.
pub open spec fn data_part(data_size: int) -> Seq<u8> {
    tag(0x64, 0x61, 0x74, 0x61) + le32(data_size)
}

/// The head of a WAV file with one channel of 16 bits.
pub open spec fn wav_head(sample_rate: int, data_size: int) -> Seq<u8> {
    riff_part(data_size) + format_part() + rate_part(sample_rate) + data_part(data_size)
}

/// The samples as a WAV file.
pub open spec fn wav_bytes(sample_rate: int, samples: Seq<i16>) -> Seq<u8> {
    wav_head(sample_rate, 2 * samples.len() as int) + pcm_bytes(samples)
}

/// The samples as a WAV file with one channel of 16 bits. A WAV file cannot say that it is longer
/// than 4 GiB.
pub fn encode_mono_pcm16_wav(sample_rate: u32, samples: &[i16]) -> (r: Result<Vec<u8>, String>)
    requires
        sample_rate * 2 <= u32::MAX,
    ensures
        match r {
            Ok(bytes) => 36 + 2 * samples@.len() <= u32::MAX && bytes@ == wav_bytes(
                sample_rate as int,
                samples@,
            ),
            Err(e) => 36 + 2 * samples@.len() > u32::MAX && e@ == "WAVデータが大きすぎます"@,
        },
{
    let len: usize = samples.len();
    if len > 2147483629 {
        return Err("WAVデータが大きすぎます".to_owned());
    }
    let data_size: u32 = len as u32 * 2;
    let mut bytes: Vec<u8> = Vec::new();
    push_tag(&mut bytes, 0x52, 0x49, 0x46, 0x46);
    push_le32(&mut bytes, 36 + data_size);
    push_tag(&mut bytes, 0x57, 0x41, 0x56, 0x45);
    push_tag(&mut bytes, 0x66, 0x6D, 0x74, 0x20);
    push_le32(&mut bytes, 16);
    push_le16(&mut bytes, 1);
    push_le16(&mut bytes, 1);
    push_le32(&mut bytes, sample_rate);
    push_le32(&mut bytes, sample_rate * 2);
    push_le16(&mut bytes, 2);
    push_le16(&mut bytes, 16);
    push_tag(&mut bytes, 0x64, 0x61, 0x74, 0x61);
    push_le32(&mut bytes, data_size);
    assert(bytes@ =~= wav_head(sample_rate as int, data_size as int));
    push_pcm(&mut bytes, samples);
    Ok(bytes)
}

/// The number that two bytes stand for, the low one first.
pub open spec fn number16(low: u8, high: u8) -> int {
    low + 256 * high
}

/// The number that four bytes stand for, the low one first.
pub open spec fn number32(b: Seq<u8>) -> int {
    b[0] + 256 * b[1] + 65536 * b[2] + 16777216 * b[3]
}

/// The sample that two bytes stand for.
pub open spec fn sample_of(low: u8, high: u8) -> int {
    if number16(low, high) < 32768 {
        number16(low, high)
    } else {
        number16(low, high) - 65536
    }
}

/// Each sample can be read back from its two bytes.
pub proof fn law_samples_are_read_back(samples: Seq<i16>)
    ensures
        pcm_bytes(samples).len() == 2 * samples.len(),
        forall|i: int|
            0 <= i < samples.len() ==> sample_of(
                pcm_bytes(samples)[2 * i],
                pcm_bytes(samples)[2 * i + 1],
            ) == #[trigger] samples[i],
    decreases samples.len(),
{
    if samples.len() > 0 {
        let head = samples.drop_last();
        law_samples_are_read_back(head);
        let n = samples.len() - 1;
        let bytes = pcm_bytes(samples);
        let before = pcm_bytes(head);
        assert forall|i: int| 0 <= i < samples.len() implies sample_of(
            bytes[2 * i],
            bytes[2 * i + 1],
        ) == #[trigger] samples[i] by {
            if i < n {
                assert(head[i] == samples[i]);
                assert(bytes[2 * i] == before[2 * i]);
                assert(bytes[2 * i + 1] == before[2 * i + 1]);
            } else {
                let code = sample_code(samples[n]);
                let two = le16(code);
                assert(bytes[2 * n] == two[0]);
                assert(bytes[2 * n + 1] == two[1]);
                assert(code / 256 % 256 == code / 256);
                assert(code == 256 * (code / 256) + code % 256);
            }
        }
    }
}

/// A WAV file is 44 bytes longer than its samples, says so, and names its sample rate.
pub proof fn law_wav_says_its_size(sample_rate: int, samples: Seq<i16>)
    requires
        0 <= sample_rate,
        sample_rate * 2 <= u32::MAX,
        36 + 2 * samples.len() <= u32::MAX,
    ensures
        wav_bytes(sample_rate, samples).len() == 44 + 2 * samples.len(),
        number32(wav_bytes(sample_rate, samples).subrange(4, 8)) + 8 == wav_bytes(
            sample_rate,
            samples,
        ).len(),
        number32(wav_bytes(sample_rate, samples).subrange(24, 28)) == sample_rate,
        number32(wav_bytes(sample_rate, samples).subrange(40, 44)) == 2 * samples.len(),
        wav_bytes(sample_rate, samples).subrange(44, 44 + 2 * samples.len() as int) == pcm_bytes(samples),
{
    law_samples_are_read_back(samples);
    let size = 2 * samples.len() as int;
    let a = riff_part(size);
    let b = format_part();
    let c = rate_part(sample_rate);
    let d = data_part(size);
    let e = pcm_bytes(samples);
    let all = wav_bytes(sample_rate, samples);
    assert(all == a + b + c + d + e);
    assert(a.len() == 12 && b.len() == 12 && c.len() == 12 && d.len() == 8);
    lemma_number32(36 + size);
    lemma_number32(sample_rate);
    lemma_number32(size);
    assert(a.subrange(4, 8) =~= le32(36 + size));
    assert(c.subrange(0, 4) =~= le32(sample_rate));
    assert(d.subrange(4, 8) =~= le32(size));
    assert(all.subrange(4, 8) =~= a.subrange(4, 8));
    assert(all.subrange(24, 28) =~= c.subrange(0, 4));
    assert(all.subrange(40, 44) =~= d.subrange(4, 8));
    assert(all.subrange(44, 44 + 2 * samples.len() as int) =~= e);
}

proof fn lemma_number32(n: int)
    requires
        0 <= n <= u32::MAX,
    ensures
        number32(le32(n)) == n,
{
    let a = n / 256;
    let b = n / 65536;
    let c = n / 16777216;
    assert(n == 256 * a + n % 256);
    assert(a == 256 * b + a % 256);
    assert(b == 256 * c + b % 256);
    assert(c % 256 == c);
}

/// A file without an extension of its own is stored under that of its type, and under that of the
/// recorder where the type is none of the known ones.
pub proof fn law_types_have_their_extensions(t: Seq<char>)
    ensures
        t == "audio/mpeg"@ ==> extension_of_type(t) == "mp3"@,
        t == "audio/mp4"@ || t == "audio/x-m4a"@ ==> extension_of_type(t) == "m4a"@,
        t == "audio/wav"@ || t == "audio/x-wav"@ ==> extension_of_type(t) == "wav"@,
        t == "audio/ogg"@ ==> extension_of_type(t) == "ogg"@,
        t != "audio/mpeg"@ && t != "audio/mp4"@ && t != "audio/x-m4a"@ && t != "audio/wav"@ && t
            != "audio/x-wav"@ && t != "audio/ogg"@ ==> extension_of_type(t) == "webm"@,
        resolved_extension(None, Some(t)) == extension_of_type(t),
        resolved_extension(None, None) == "webm"@,
        known_extensions().contains(extension_of_type(t)),
{
    lemma_types_apart();
    let known = known_extensions();
    assert(known[0] == "mp3"@ && known[1] == "m4a"@ && known[3] == "wav"@ && known[5] == "ogg"@
        && known[6] == "webm"@);
}

proof fn lemma_types_apart()
    ensures
        "audio/mpeg"@ != "audio/mp4"@,
        "audio/mpeg"@ != "audio/x-m4a"@,
        "audio/mpeg"@ != "audio/wav"@,
        "audio/mpeg"@ != "audio/x-wav"@,
        "audio/mpeg"@ != "audio/ogg"@,
        "audio/mp4"@ != "audio/wav"@,
        "audio/mp4"@ != "audio/x-wav"@,
        "audio/mp4"@ != "audio/ogg"@,
        "audio/x-m4a"@ != "audio/wav"@,
        "audio/x-m4a"@ != "audio/x-wav"@,
        "audio/x-m4a"@ != "audio/ogg"@,
        "audio/wav"@ != "audio/ogg"@,
        "audio/x-wav"@ != "audio/ogg"@,
{
    reveal_strlit("audio/mpeg");
    reveal_strlit("audio/mp4");
    reveal_strlit("audio/x-m4a");
    reveal_strlit("audio/wav");
    reveal_strlit("audio/x-wav");
    reveal_strlit("audio/ogg");
    assert("audio/mpeg"@[6] == 'm' && "audio/mpeg"@[7] == 'p' && "audio/mpeg"@[8] == 'e');
    assert("audio/mp4"@[6] == 'm' && "audio/mp4"@[8] == '4');
    assert("audio/x-m4a"@[6] == 'x' && "audio/x-m4a"@[8] == 'm');
    assert("audio/wav"@[6] == 'w');
    assert("audio/x-wav"@[6] == 'x' && "audio/x-wav"@[8] == 'w');
    assert("audio/ogg"@[6] == 'o');
}

/// The files that are taken as recordings are those of seven kinds.
pub proof fn law_recordings_are_known(e: Seq<char>)
    ensures
        known_extensions().contains(e) <==> (e == "mp3"@ || e == "m4a"@ || e == "mp4"@ || e
            == "wav"@ || e == "flac"@ || e == "ogg"@ || e == "webm"@),
{
    let known = known_extensions();
    assert(known.len() == 7);
    assert(known[0] == "mp3"@ && known[1] == "m4a"@ && known[2] == "mp4"@ && known[3] == "wav"@
        && known[4] == "flac"@ && known[5] == "ogg"@ && known[6] == "webm"@);
}

/// An extension of at most eight letters and digits is kept, in small letters, whatever the type of
/// the file is, and any other is left out.
pub proof fn law_short_extensions_are_kept(e: Seq<char>, t: Option<Seq<char>>)
    ensures
        ({
            let plain = forall|i: int|
                0 <= i < e.len() ==> ('0' <= #[trigger] e[i] && e[i] <= '9') || ('a' <= e[i] && e[i]
                    <= 'z') || ('A' <= e[i] && e[i] <= 'Z');
            &&& 0 < e.len() <= 8 && plain ==> resolved_extension(Some(e), t)
                == crate::text::lowered(e)
            &&& !(0 < e.len() <= 8 && plain) ==> resolved_extension(Some(e), t)
                == resolved_extension(None, t)
        }),
{
    if 0 < e.len() <= 8 && forall|i: int|
        0 <= i < e.len() ==> ('0' <= #[trigger] e[i] && e[i] <= '9') || ('a' <= e[i] && e[i] <= 'z')
            || ('A' <= e[i] && e[i] <= 'Z') {
        assert(is_kept_extension(e));
    } else if is_kept_extension(e) {
        assert forall|i: int| 0 <= i < e.len() implies ('0' <= #[trigger] e[i] && e[i] <= '9') || (
        'a' <= e[i] && e[i] <= 'z') || ('A' <= e[i] && e[i] <= 'Z') by {
            assert(crate::text::is_alnum(e[i]));
        }
    }
}

/// A WAV file begins with its marks and says that it holds one channel of plain samples of sixteen
/// bits, two bytes to a sample.
pub proof fn law_wav_says_its_form(sample_rate: int, samples: Seq<i16>)
    requires
        0 <= sample_rate,
        sample_rate * 2 <= u32::MAX,
        36 + 2 * samples.len() <= u32::MAX,
    ensures
        ({
            let all = wav_bytes(sample_rate, samples);
            &&& all[0] == 0x52 && all[1] == 0x49 && all[2] == 0x46 && all[3] == 0x46
            &&& all[8] == 0x57 && all[9] == 0x41 && all[10] == 0x56 && all[11] == 0x45
            &&& all[12] == 0x66 && all[13] == 0x6D && all[14] == 0x74 && all[15] == 0x20
            &&& all[36] == 0x64 && all[37] == 0x61 && all[38] == 0x74 && all[39] == 0x61
            &&& number32(all.subrange(16, 20)) == 16
            &&& number16(all[20], all[21]) == 1
            &&& number16(all[22], all[23]) == 1
            &&& number32(all.subrange(28, 32)) == 2 * sample_rate
            &&& number16(all[32], all[33]) == 2
            &&& number16(all[34], all[35]) == 16
        }),
{
    let size = 2 * samples.len() as int;
    let a = riff_part(size);
    let b = format_part();
    let c = rate_part(sample_rate);
    let d = data_part(size);
    let all = wav_bytes(sample_rate, samples);
    assert(all == a + b + c + d + pcm_bytes(samples));
    assert(a.len() == 12 && b.len() == 12 && c.len() == 12 && d.len() == 8);
    lemma_number32(16);
    lemma_number32(2 * sample_rate);
    assert(b.subrange(4, 8) =~= le32(16));
    assert(c.subrange(4, 8) =~= le32(2 * sample_rate));
    assert(all.subrange(16, 20) =~= b.subrange(4, 8));
    assert(all.subrange(28, 32) =~= c.subrange(4, 8));
    assert(all[0] == a[0] && all[1] == a[1] && all[2] == a[2] && all[3] == a[3]);
    assert(all[8] == a[8] && all[9] == a[9] && all[10] == a[10] && all[11] == a[11]);
    assert(all[12] == b[0] && all[13] == b[1] && all[14] == b[2] && all[15] == b[3]);
    assert(all[20] == b[8] && all[21] == b[9] && all[22] == b[10] && all[23] == b[11]);
    assert(all[32] == c[8] && all[33] == c[9] && all[34] == c[10] && all[35] == c[11]);
    assert(all[36] == d[0] && all[37] == d[1] && all[38] == d[2] && all[39] == d[3]);
}

/// A name whose only full stop is its first character has no extension, nor has one without any, nor
/// the name of the directory above.
pub proof fn law_hidden_names_have_no_extension(part: Seq<char>)
    ensures
        (forall|i: int| 0 < i < part.len() ==> #[trigger] part[i] != '.') ==> extension_in(part)
            is None,
        part == ".."@ ==> extension_in(part) is None,
{
    if exists|k: int| 0 < k && #[trigger] last_stop(part, k) {
        let k = choose|k: int| 0 < k && #[trigger] last_stop(part, k);
        assert(part[k] == '.');
    }
}

} // verus!
