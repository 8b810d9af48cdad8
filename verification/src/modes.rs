//! Sort modes: where each mode files media inside a client folder, which file
//! types a mode accepts, and which mode a file is given in automatic sorting.

use vstd::prelude::*;

use crate::text::{chars_of, last_index, lemma_last_index_bounds, has_prefix, starts_with, string_from_range, text_eq, to_lowercase, unicode_lowercase};

verus! {

// ---------------------------------------------------------------------------
// File names
// ---------------------------------------------------------------------------

/// Whether a file name has an extension: it holds a `.` that is not its
/// first character, and it is not `..` (as `Path::extension` documents).
pub open spec fn has_extension(name: Seq<char>) -> bool {
    name != ".."@ && last_index(name, '.') > 0
}

/// The extension of a file name: what follows its last `.`.
pub open spec fn name_extension(name: Seq<char>) -> Option<Seq<char>> {
    if has_extension(name) {
        Some(name.subrange(last_index(name, '.') + 1, name.len() as int))
    } else {
        None
    }
}

/// The stem of a file name: what precedes its last `.`, or the whole name
/// when it has no extension (as `Path::file_stem` documents).
pub open spec fn name_stem(name: Seq<char>) -> Seq<char> {
    if has_extension(name) {
        name.subrange(0, last_index(name, '.'))
    } else {
        name
    }
}

/// Splits a file name into its stem and its extension.
pub fn split_file_name(name: &str) -> (r: (String, Option<String>))
    ensures
        r.0@ == name_stem(name@),
        match r.1 {
            Some(e) => name_extension(name@) == Some(e@),
            None => name_extension(name@) is None,
        },
{
    let cs = chars_of(name);
    let mut i: usize = cs.len();
    proof { lemma_last_index_bounds(name@, '.'); }
    assert(name@.subrange(0, cs.len() as int) =~= name@);
    while i > 0 && cs[i - 1] != '.'
        invariant
            cs@ == name@,
            i <= cs.len(),
            last_index(name@, '.') == last_index(name@.subrange(0, i as int), '.'),
        decreases i,
    {
        assert(name@.subrange(0, i as int).drop_last() =~= name@.subrange(0, i - 1));
        i = i - 1;
    }
    assert(name@.subrange(0, cs.len() as int) =~= name@);
    if i == 0 {
        assert(name@.subrange(0, 0) =~= Seq::<char>::empty());
    }
    let is_dotdot = text_eq(name, "..");
    if is_dotdot || i <= 1 {
        (name.to_owned(), None)
    } else {
        let stem = string_from_range(&cs, 0, i - 1);
        let ext = string_from_range(&cs, i, cs.len());
        (stem, Some(ext))
    }
}

// ---------------------------------------------------------------------------
// Extension classes
// ---------------------------------------------------------------------------

/// Lowercase extensions of video files.
pub open spec fn is_video_extension(e: Seq<char>) -> bool {
    ||| e == "mov"@
    ||| e == "mp4"@
    ||| e == "mxf"@
    ||| e == "mkv"@
    ||| e == "avi"@
    ||| e == "mpg"@
    ||| e == "mpeg"@
    ||| e == "m4v"@
    ||| e == "webm"@
    ||| e == "r3d"@
}

/// Lowercase extensions of audio files.
pub open spec fn is_audio_extension(e: Seq<char>) -> bool {
    ||| e == "wav"@
    ||| e == "mp3"@
    ||| e == "aif"@
    ||| e == "aiff"@
    ||| e == "flac"@
    ||| e == "m4a"@
    ||| e == "aac"@
    ||| e == "ogg"@
    ||| e == "opus"@
}

/// Lowercase extensions of still images.
pub open spec fn is_still_extension(e: Seq<char>) -> bool {
    ||| e == "jpg"@
    ||| e == "jpeg"@
    ||| e == "png"@
    ||| e == "tif"@
    ||| e == "tiff"@
    ||| e == "heic"@
    ||| e == "heif"@
    ||| e == "webp"@
    ||| e == "bmp"@
    ||| e == "gif"@
}

fn is_one_of(e: &str, options: &[&str]) -> (r: bool)
    ensures
        r == exists|i: int| 0 <= i < options@.len() && e@ == (#[trigger] options@[i])@,
{
    let mut i: usize = 0;
    while i < options.len()
        invariant
            i <= options@.len(),
            forall|j: int| 0 <= j < i ==> e@ != (#[trigger] options@[j])@,
        decreases options.len() - i,
    {
        if text_eq(e, options[i]) {
            return true;
        }
        i = i + 1;
    }
    false
}

fn video_extension(e: &str) -> (r: bool)
    ensures
        r == is_video_extension(e@),
{
    let options: [&str; 10] = ["mov", "mp4", "mxf", "mkv", "avi", "mpg", "mpeg", "m4v", "webm", "r3d"];
    let r = is_one_of(e, &options);
    proof {
        if is_video_extension(e@) {
            if e@ == "mov"@ { assert(e@ == options@[0]@); }
            else if e@ == "mp4"@ { assert(e@ == options@[1]@); }
            else if e@ == "mxf"@ { assert(e@ == options@[2]@); }
            else if e@ == "mkv"@ { assert(e@ == options@[3]@); }
            else if e@ == "avi"@ { assert(e@ == options@[4]@); }
            else if e@ == "mpg"@ { assert(e@ == options@[5]@); }
            else if e@ == "mpeg"@ { assert(e@ == options@[6]@); }
            else if e@ == "m4v"@ { assert(e@ == options@[7]@); }
            else if e@ == "webm"@ { assert(e@ == options@[8]@); }
            else { assert(e@ == options@[9]@); }
        }
    }
    r
}

fn audio_extension(e: &str) -> (r: bool)
    ensures
        r == is_audio_extension(e@),
{
    let options: [&str; 9] = ["wav", "mp3", "aif", "aiff", "flac", "m4a", "aac", "ogg", "opus"];
    let r = is_one_of(e, &options);
    proof {
        if is_audio_extension(e@) {
            if e@ == "wav"@ { assert(e@ == options@[0]@); }
            else if e@ == "mp3"@ { assert(e@ == options@[1]@); }
            else if e@ == "aif"@ { assert(e@ == options@[2]@); }
            else if e@ == "aiff"@ { assert(e@ == options@[3]@); }
            else if e@ == "flac"@ { assert(e@ == options@[4]@); }
            else if e@ == "m4a"@ { assert(e@ == options@[5]@); }
            else if e@ == "aac"@ { assert(e@ == options@[6]@); }
            else if e@ == "ogg"@ { assert(e@ == options@[7]@); }
            else { assert(e@ == options@[8]@); }
        }
    }
    r
}

fn still_extension(e: &str) -> (r: bool)
    ensures
        r == is_still_extension(e@),
{
    let options: [&str; 10] = ["jpg", "jpeg", "png", "tif", "tiff", "heic", "heif", "webp", "bmp", "gif"];
    let r = is_one_of(e, &options);
    proof {
        if is_still_extension(e@) {
            if e@ == "jpg"@ { assert(e@ == options@[0]@); }
            else if e@ == "jpeg"@ { assert(e@ == options@[1]@); }
            else if e@ == "png"@ { assert(e@ == options@[2]@); }
            else if e@ == "tif"@ { assert(e@ == options@[3]@); }
            else if e@ == "tiff"@ { assert(e@ == options@[4]@); }
            else if e@ == "heic"@ { assert(e@ == options@[5]@); }
            else if e@ == "heif"@ { assert(e@ == options@[6]@); }
            else if e@ == "webp"@ { assert(e@ == options@[7]@); }
            else if e@ == "bmp"@ { assert(e@ == options@[8]@); }
            else { assert(e@ == options@[9]@); }
        }
    }
    r
}

/// The view of an optional string slice.
pub open spec fn opt_text(o: Option<&str>) -> Option<Seq<char>> {
    match o {
        Some(s) => Some(s@),
        None => None,
    }
}

// ---------------------------------------------------------------------------
// Destinations
// ---------------------------------------------------------------------------

/// The folder, relative to the client folder, into which a mode files media.
pub open spec fn mode_destination(mode: Seq<char>) -> Option<Seq<char>> {
    if mode == "VIDEO PROXY"@ {
        Some("01_MEDIA/010_VIDEO_PROXY"@)
    } else if mode == "VIDEO RAW"@ {
        Some("01_MEDIA/020_VIDEO_RAW"@)
    } else if mode == "AUDIO CLEAN"@ {
        Some("01_MEDIA/030_AUDIO_CLEAN"@)
    } else if mode == "AUDIO RAW"@ {
        Some("01_MEDIA/040_AUDIO_RAW"@)
    } else if mode == "STILLS"@ {
        Some("01_MEDIA/050_STILLS"@)
    } else if mode == "EXPORTS"@ {
        Some("03_EXPORTS"@)
    } else if mode == "APPROVAL EXPORTS"@ {
        Some("03_EXPORTS/APPROVAL"@)
    } else {
        None
    }
}

/// The destination folder of a sort mode, relative to the client folder;
/// `None` for a mode that is not known.
pub fn destination_for_mode(mode: &str) -> (r: Option<&'static str>)
    ensures
        opt_text(r) == mode_destination(mode@),
{
    if text_eq(mode, "VIDEO PROXY") {
        Some("01_MEDIA/010_VIDEO_PROXY")
    } else if text_eq(mode, "VIDEO RAW") {
        Some("01_MEDIA/020_VIDEO_RAW")
    } else if text_eq(mode, "AUDIO CLEAN") {
        Some("01_MEDIA/030_AUDIO_CLEAN")
    } else if text_eq(mode, "AUDIO RAW") {
        Some("01_MEDIA/040_AUDIO_RAW")
    } else if text_eq(mode, "STILLS") {
        Some("01_MEDIA/050_STILLS")
    } else if text_eq(mode, "EXPORTS") {
        Some("03_EXPORTS")
    } else if text_eq(mode, "APPROVAL EXPORTS") {
        Some("03_EXPORTS/APPROVAL")
    } else {
        None
    }
}

// ---------------------------------------------------------------------------
// Accepted file types
// ---------------------------------------------------------------------------

/// Whether a mode accepts a file whose lowercased extension is `ext`: a file
/// without an extension never; the video, audio and still modes their own
/// types; any other mode every extension.
pub open spec fn mode_accepts(mode: Seq<char>, ext: Seq<char>) -> bool {
    if ext.len() == 0 {
        false
    } else if mode == "VIDEO PROXY"@ || mode == "VIDEO RAW"@ {
        is_video_extension(ext)
    } else if mode == "AUDIO CLEAN"@ || mode == "AUDIO RAW"@ {
        is_audio_extension(ext)
    } else if mode == "STILLS"@ {
        is_still_extension(ext)
    } else {
        true
    }
}

/// The lowercased extension of a file name, empty when it has none.
pub open spec fn lowered_extension(name: Seq<char>) -> Seq<char> {
    match name_extension(name) {
        Some(e) => unicode_lowercase(e),
        None => Seq::empty(),
    }
}

/// Whether `mode` accepts files with the (already lowercased) extension `ext`.
pub fn mode_accepts_extension(mode: &str, ext: &str) -> (r: bool)
    ensures
        r == mode_accepts(mode@, ext@),
{
    if ext.is_empty() {
        return false;
    }
    if text_eq(mode, "VIDEO PROXY") || text_eq(mode, "VIDEO RAW") {
        video_extension(ext)
    } else if text_eq(mode, "AUDIO CLEAN") || text_eq(mode, "AUDIO RAW") {
        audio_extension(ext)
    } else if text_eq(mode, "STILLS") {
        still_extension(ext)
    } else {
        true
    }
}

/// Whether a file of the given name may be sorted in `mode`.
pub fn is_allowed_for_mode(mode: &str, file_name: &str) -> (r: bool)
    ensures
        r == mode_accepts(mode@, lowered_extension(file_name@)),
{
    let (_stem, ext) = split_file_name(file_name);
    let lowered = match ext {
        Some(e) => to_lowercase(e.as_str()),
        None => String::new(),
    };
    mode_accepts_extension(mode, lowered.as_str())
}

// ---------------------------------------------------------------------------
// Automatic mode
// ---------------------------------------------------------------------------

/// ASCII uppercase of one character.
pub open spec fn ascii_upper(c: char) -> char {
    if 'a' <= c && c <= 'z' {
        ((c as int) - 32) as char
    } else {
        c
    }
}

/// ASCII uppercase of a string (`str::to_ascii_uppercase`).
pub open spec fn ascii_uppercase(s: Seq<char>) -> Seq<char> {
    s.map_values(|c: char| ascii_upper(c))
}

/// The ASCII uppercase of a string.
pub fn to_ascii_uppercase(s: &str) -> (r: String)
    ensures
        r@ == ascii_uppercase(s@),
{
    let cs = chars_of(s);
    let mut r = String::new();
    let mut i: usize = 0;
    while i < cs.len()
        invariant
            cs@ == s@,
            i <= cs.len(),
            r@ == ascii_uppercase(s@.subrange(0, i as int)),
        decreases cs.len() - i,
    {
        let c = cs[i];
        let u = if 'a' <= c && c <= 'z' {
            ((c as u8) - 32u8) as char
        } else {
            c
        };
        crate::text::push_char(&mut r, u);
        assert(ascii_uppercase(s@.subrange(0, i + 1)) =~= ascii_uppercase(s@.subrange(0, i as int)).push(ascii_upper(c)));
        i = i + 1;
    }
    assert(s@.subrange(0, cs.len() as int) =~= s@);
    r
}

/// The mode that automatic sorting gives a file, from its lowercased
/// extension and its stem: MXF is proxy video and MP4 raw video; audio whose
/// stem begins with CLEAN (in any ASCII case) is clean audio, other audio raw
/// audio; still images are stills; other video is raw video; anything else
/// has no mode.
pub open spec fn detected_mode(ext: Seq<char>, stem: Seq<char>) -> Option<Seq<char>> {
    if ext.len() == 0 {
        None
    } else if ext == "mxf"@ {
        Some("VIDEO PROXY"@)
    } else if ext == "mp4"@ {
        Some("VIDEO RAW"@)
    } else if is_audio_extension(ext) {
        if has_prefix(ascii_uppercase(stem), "CLEAN"@) {
            Some("AUDIO CLEAN"@)
        } else {
            Some("AUDIO RAW"@)
        }
    } else if is_still_extension(ext) {
        Some("STILLS"@)
    } else if is_video_extension(ext) {
        Some("VIDEO RAW"@)
    } else {
        None
    }
}

/// The lowercased extension that automatic sorting looks at (the lowercase
/// of the empty string when the name has no extension).
pub open spec fn auto_extension(name: Seq<char>) -> Seq<char> {
    match name_extension(name) {
        Some(e) => unicode_lowercase(e),
        None => unicode_lowercase(Seq::empty()),
    }
}

/// The automatic mode for a file with lowercased extension `ext` and stem `stem`.
pub fn mode_for_extension(ext: &str, stem: &str) -> (r: Option<&'static str>)
    ensures
        opt_text(r) == detected_mode(ext@, stem@),
{
    if ext.is_empty() {
        return None;
    }
    if text_eq(ext, "mxf") {
        return Some("VIDEO PROXY");
    }
    if text_eq(ext, "mp4") {
        return Some("VIDEO RAW");
    }
    if audio_extension(ext) {
        let upper = to_ascii_uppercase(stem);
        if starts_with(upper.as_str(), "CLEAN") {
            return Some("AUDIO CLEAN");
        }
        return Some("AUDIO RAW");
    }
    if still_extension(ext) {
        return Some("STILLS");
    }
    if video_extension(ext) {
        return Some("VIDEO RAW");
    }
    None
}

/// The mode that automatic sorting gives a file of the given name.
///
/// A file is always accepted by the mode it is given.
pub fn detect_mode_for_path(file_name: &str) -> (r: Option<&'static str>)
    ensures
        opt_text(r) == detected_mode(auto_extension(file_name@), name_stem(file_name@)),
        r matches Some(m) ==> mode_accepts(m@, lowered_extension(file_name@)),
{
    let (stem, ext) = split_file_name(file_name);
    let lowered = match ext {
        Some(e) => to_lowercase(e.as_str()),
        None => to_lowercase(""),
    };
    proof {
        assert(""@ =~= Seq::<char>::empty()) by { reveal_strlit(""); }
        lemma_mode_literals_differ();
    }
    mode_for_extension(lowered.as_str(), stem.as_str())
}

proof fn lemma_mode_literals_differ()
    ensures
        "AUDIO CLEAN"@ != "VIDEO PROXY"@,
        "AUDIO CLEAN"@ != "VIDEO RAW"@,
        "AUDIO RAW"@ != "VIDEO PROXY"@,
        "AUDIO RAW"@ != "VIDEO RAW"@,
        "STILLS"@ != "VIDEO PROXY"@,
        "STILLS"@ != "VIDEO RAW"@,
        "STILLS"@ != "AUDIO CLEAN"@,
        "STILLS"@ != "AUDIO RAW"@,
{
    reveal_strlit("AUDIO CLEAN");
    reveal_strlit("AUDIO RAW");
    reveal_strlit("VIDEO PROXY");
    reveal_strlit("VIDEO RAW");
    reveal_strlit("STILLS");
    assert("AUDIO CLEAN"@[0] != "VIDEO PROXY"@[0]);
    assert("AUDIO CLEAN"@[0] != "VIDEO RAW"@[0]);
    assert("AUDIO RAW"@[0] != "VIDEO PROXY"@[0]);
    assert("AUDIO RAW"@[0] != "VIDEO RAW"@[0]);
    assert("STILLS"@[0] != "VIDEO PROXY"@[0]);
    assert("STILLS"@[0] != "VIDEO RAW"@[0]);
    assert("STILLS"@[0] != "AUDIO CLEAN"@[0]);
    assert("STILLS"@[0] != "AUDIO RAW"@[0]);
}

/// A mode that automatic sorting gives a file accepts that file's extension.
pub proof fn lemma_detected_mode_accepts(ext: Seq<char>, stem: Seq<char>)
    ensures
        detected_mode(ext, stem) matches Some(m) ==> mode_accepts(m, ext),
{
    lemma_mode_literals_differ();
}

/// Every mode that automatic sorting gives a file has a destination, so an
/// automatic batch never stops on an unknown mode.
pub proof fn lemma_detected_modes_have_destinations(ext: Seq<char>, stem: Seq<char>)
    ensures
        detected_mode(ext, stem) matches Some(m) ==> mode_destination(m) is Some,
{
}

// ---------------------------------------------------------------------------
// The file types of the modes
// ---------------------------------------------------------------------------

/// The video file types, as the video modes list them.
pub open spec fn video_types() -> Set<Seq<char>> {
    set!["mov"@, "mp4"@, "mxf"@, "mkv"@, "avi"@, "mpg"@, "mpeg"@, "m4v"@, "webm"@, "r3d"@]
}

/// The audio file types, as the audio modes list them.
pub open spec fn audio_types() -> Set<Seq<char>> {
    set!["wav"@, "mp3"@, "aif"@, "aiff"@, "flac"@, "m4a"@, "aac"@, "ogg"@, "opus"@]
}

/// The still image file types, as the stills mode lists them.
pub open spec fn still_types() -> Set<Seq<char>> {
    set!["jpg"@, "jpeg"@, "png"@, "tif"@, "tiff"@, "heic"@, "heif"@, "webp"@, "bmp"@, "gif"@]
}

proof fn lemma_type_literals()
    ensures
        forall|e: Seq<char>| is_video_extension(e) <==> #[trigger] video_types().contains(e),
        forall|e: Seq<char>| is_audio_extension(e) <==> #[trigger] audio_types().contains(e),
        forall|e: Seq<char>| is_still_extension(e) <==> #[trigger] still_types().contains(e),
        video_types().disjoint(audio_types()),
        video_types().disjoint(still_types()),
        audio_types().disjoint(still_types()),
        !video_types().contains(Seq::<char>::empty()),
        !audio_types().contains(Seq::<char>::empty()),
        !still_types().contains(Seq::<char>::empty()),
        "VIDEO PROXY"@ != "VIDEO RAW"@,
        "AUDIO CLEAN"@ != "AUDIO RAW"@,
{
    reveal_strlit("mov"); reveal_strlit("mp4"); reveal_strlit("mxf"); reveal_strlit("mkv");
    reveal_strlit("avi"); reveal_strlit("mpg"); reveal_strlit("mpeg"); reveal_strlit("m4v");
    reveal_strlit("webm"); reveal_strlit("r3d");
    reveal_strlit("wav"); reveal_strlit("mp3"); reveal_strlit("aif"); reveal_strlit("aiff");
    reveal_strlit("flac"); reveal_strlit("m4a"); reveal_strlit("aac"); reveal_strlit("ogg");
    reveal_strlit("opus");
    reveal_strlit("jpg"); reveal_strlit("jpeg"); reveal_strlit("png"); reveal_strlit("tif");
    reveal_strlit("tiff"); reveal_strlit("heic"); reveal_strlit("heif"); reveal_strlit("webp");
    reveal_strlit("bmp"); reveal_strlit("gif");
    reveal_strlit("VIDEO PROXY"); reveal_strlit("VIDEO RAW");
    reveal_strlit("AUDIO CLEAN"); reveal_strlit("AUDIO RAW");
    assert("VIDEO PROXY"@[6] != "VIDEO RAW"@[6]);
    assert("AUDIO CLEAN"@[6] != "AUDIO RAW"@[6]);
    assert forall|e: Seq<char>| video_types().contains(e) implies !audio_types().contains(e) && !still_types().contains(e) by {
        // The types of two classes differ in one of their first four characters.
        let _first_three = (e[0], e[1], e[2]);
        if e.len() > 3 {
            let _fourth = e[3];
        }
    }
    assert forall|e: Seq<char>| audio_types().contains(e) implies !still_types().contains(e) by {
        // The types of two classes differ in one of their first four characters.
        let _first_three = (e[0], e[1], e[2]);
        if e.len() > 3 {
            let _fourth = e[3];
        }
    }
    assert forall|e: Seq<char>| is_video_extension(e) <==> #[trigger] video_types().contains(e) by {}
    assert forall|e: Seq<char>| is_audio_extension(e) <==> #[trigger] audio_types().contains(e) by {}
    assert forall|e: Seq<char>| is_still_extension(e) <==> #[trigger] still_types().contains(e) by {}
    assert(video_types().disjoint(audio_types()));
    assert(video_types().disjoint(still_types()));
    assert(audio_types().disjoint(still_types()));
    assert(Seq::<char>::empty().len() == 0);
}

/// What each mode accepts: the video modes exactly the video types, the
/// audio modes exactly the audio types, the stills mode exactly the still
/// types, and any other mode every file that has an extension. In
/// particular no mode accepts a type of another class.
pub proof fn lemma_mode_accepts_types(mode: Seq<char>, ext: Seq<char>)
    ensures
        mode == "VIDEO PROXY"@ || mode == "VIDEO RAW"@ ==> (mode_accepts(mode, ext) <==> video_types().contains(ext)),
        mode == "AUDIO CLEAN"@ || mode == "AUDIO RAW"@ ==> (mode_accepts(mode, ext) <==> audio_types().contains(ext)),
        mode == "STILLS"@ ==> (mode_accepts(mode, ext) <==> still_types().contains(ext)),
        mode != "VIDEO PROXY"@ && mode != "VIDEO RAW"@ && mode != "AUDIO CLEAN"@ && mode != "AUDIO RAW"@
            && mode != "STILLS"@ ==> (mode_accepts(mode, ext) <==> ext.len() > 0),
{
    lemma_type_literals();
    lemma_mode_literals_differ();
    if ext.len() == 0 {
        assert(ext =~= Seq::<char>::empty());
    }
}

/// Automatic sorting gives every media file a mode: MXF proxy video, other
/// video raw video, audio clean audio when its stem begins with CLEAN (in any
/// ASCII case) and raw audio otherwise, still images stills; a file of any
/// other type gets none. So every file that a media mode accepts gets a
/// mode, the one of its class.
pub proof fn lemma_detection_covers_types(ext: Seq<char>, stem: Seq<char>)
    ensures
        ext == "mxf"@ ==> detected_mode(ext, stem) == Some("VIDEO PROXY"@),
        video_types().contains(ext) && ext != "mxf"@ ==> detected_mode(ext, stem) == Some("VIDEO RAW"@),
        audio_types().contains(ext) ==> detected_mode(ext, stem) == Some(
            if has_prefix(ascii_uppercase(stem), "CLEAN"@) { "AUDIO CLEAN"@ } else { "AUDIO RAW"@ },
        ),
        still_types().contains(ext) ==> detected_mode(ext, stem) == Some("STILLS"@),
        !video_types().contains(ext) && !audio_types().contains(ext) && !still_types().contains(ext)
            ==> detected_mode(ext, stem) is None,
        (exists|m: Seq<char>|
            (m == "VIDEO PROXY"@ || m == "VIDEO RAW"@ || m == "AUDIO CLEAN"@ || m == "AUDIO RAW"@ || m == "STILLS"@)
                && #[trigger] mode_accepts(m, ext)) ==> detected_mode(ext, stem) is Some,
{
    lemma_type_literals();
    lemma_mode_literals_differ();
    reveal_strlit("mxf");
    reveal_strlit("mp4");
    if ext.len() == 0 {
        assert(ext =~= Seq::<char>::empty());
    }
}

} // verus!
