//! The offline engine: where its files are looked for, and how its transcript
//! is recovered from the text file it writes or, failing that, from its logs.
use vstd::prelude::*;
use vstd::string::StringExecFns;
use crate::text::{
    chars_of, contains_seq, find_char, has_prefix, is_white_space, join, lemma_trim_keeps_core,
    range_contains, range_has_prefix, substring, trim, trim_bounds, trim_string,
};
use crate::transcript::result_view;
use crate::trusted::{from_utf8_lossy, utf8_lossy};

verus! {

broadcast use vstd::string::group_string_axioms;

/// A model or executable smaller than this many bytes is taken for a stub.
pub const MIN_BINARY_BYTES: u64 = 100000;

/// A candidate file is usable when it exists and is larger than a stub.
pub open spec fn usable(size: Option<u64>) -> bool {
    match size {
        Some(n) => n > MIN_BINARY_BYTES,
        None => false,
    }
}

/// The first usable candidate, given the size of each (`None` for a missing
/// file).
pub fn first_usable(sizes: &Vec<Option<u64>>) -> (r: Option<usize>)
    ensures
        r matches Some(i) ==> i < sizes@.len() && usable(sizes@[i as int]) && forall|j: int|
            0 <= j < i ==> !usable(#[trigger] sizes@[j]),
        r is None ==> forall|j: int| 0 <= j < sizes@.len() ==> !usable(#[trigger] sizes@[j]),
{
    let mut i: usize = 0;
    while i < sizes.len()
        invariant
            i <= sizes@.len(),
            forall|j: int| 0 <= j < i ==> !usable(#[trigger] sizes@[j]),
        decreases sizes@.len() - i,
    {
        let usable_here = match sizes[i] {
            Some(n) => n > MIN_BINARY_BYTES,
            None => false,
        };
        if usable_here {
            return Some(i);
        }
        i = i + 1;
    }
    None
}

/// Where the model is looked for, relative to the working directory, in order.
pub fn model_candidates() -> (r: Vec<Vec<&'static str>>)
    ensures
        r@.len() == 3,
        r@[0]@ == seq!["models", "ggml-base.en.bin"],
        r@[1]@ == seq!["src-tauri", "models", "ggml-base.en.bin"],
        r@[2]@ == seq!["ggml-base.en.bin"],
{
    vec![
        vec!["models", "ggml-base.en.bin"],
        vec!["src-tauri", "models", "ggml-base.en.bin"],
        vec!["ggml-base.en.bin"],
    ]
}

/// Where the command-line engine is looked for, relative to the working
/// directory, in order.
pub fn whisper_cli_candidates() -> (r: Vec<Vec<&'static str>>)
    ensures
        r@.len() == 5,
        r@[0]@ == seq!["bin", "whisper-cli.exe"],
        r@[1]@ == seq!["bin", "main.exe"],
        r@[2]@ == seq!["src-tauri", "bin", "whisper-cli.exe"],
        r@[3]@ == seq!["models", "whisper-cli.exe"],
        r@[4]@ == seq!["whisper-cli.exe"],
{
    vec![
        vec!["bin", "whisper-cli.exe"],
        vec!["bin", "main.exe"],
        vec!["src-tauri", "bin", "whisper-cli.exe"],
        vec!["models", "whisper-cli.exe"],
        vec!["whisper-cli.exe"],
    ]
}

/// Returned when neither the transcript file nor the logs hold any text.
pub const NO_LOCAL_TEXT: &'static str = "Local Whisper returned no text";

/// The pieces of `s` between line feeds; every line that `str::lines` gives
/// is one of them, up to a trailing carriage return, and the only other
/// pieces are empty.
pub open spec fn split_lines(s: Seq<char>) -> Seq<Seq<char>>
    decreases s.len(),
{
    if s.len() == 0 {
        seq![Seq::empty()]
    } else {
        let r = split_lines(s.drop_last());
        if s.last() == '\n' {
            r.push(Seq::empty())
        } else {
            r.update(r.len() - 1, r.last().push(s.last()))
        }
    }
}

/// A trimmed log line that the engine writes about itself rather than about
/// the speech.
pub open spec fn log_noise(t: Seq<char>) -> bool {
    ||| has_prefix(t, "whisper_"@)
    ||| has_prefix(t, "system_info:"@)
    ||| has_prefix(t, "main:"@)
    ||| has_prefix(t, "load_backend:"@)
    ||| has_prefix(t, "ggml_"@)
    ||| has_prefix(t, "read_audio_data:"@)
    ||| has_prefix(t, "alloc_tensor_range:"@)
    ||| contains_seq(t, "GGML_ASSERT"@)
    ||| contains_seq(t, "failed to allocate"@)
}

/// The position of the first `c` in `t`, or -1.
pub open spec fn first_index(t: Seq<char>, c: char) -> int
    decreases t.len(),
{
    if t.len() == 0 {
        -1
    } else if t[0] == c {
        0
    } else {
        let r = first_index(t.drop_first(), c);
        if r < 0 {
            -1
        } else {
            r + 1
        }
    }
}

/// A segment line `[00:00:00.000 --> 00:00:02.000]  text` without its time
/// stamps; any other line unchanged.
pub open spec fn strip_timestamp(t: Seq<char>) -> Seq<char> {
    if has_prefix(t, seq!['[']) && contains_seq(t, "-->"@) && contains_seq(t, seq![']']) {
        trim(t.subrange(first_index(t, ']') + 1, t.len() as int))
    } else {
        t
    }
}

/// The spoken text of a log line, if it has any.
pub open spec fn spoken_line(line: Seq<char>) -> Option<Seq<char>> {
    let t = trim(line);
    if t.len() > 0 && !log_noise(t) && strip_timestamp(t).len() > 0 {
        Some(strip_timestamp(t))
    } else {
        None
    }
}

/// The spoken text of the lines that have some, in order.
pub open spec fn spoken_lines(lines: Seq<Seq<char>>) -> Seq<Seq<char>>
    decreases lines.len(),
{
    if lines.len() == 0 {
        Seq::empty()
    } else {
        let r = spoken_lines(lines.drop_last());
        match spoken_line(lines.last()) {
            Some(u) => r.push(u),
            None => r,
        }
    }
}

/// The transcript recovered from the engine's standard output and error: the
/// spoken text of their lines, output first, joined by spaces and trimmed.
pub open spec fn log_transcript(stdout: Seq<char>, stderr: Seq<char>) -> Result<Seq<char>, Seq<char>> {
    let j = trim(
        join(spoken_lines(split_lines(stdout)) + spoken_lines(split_lines(stderr)), " "@),
    );
    if j.len() > 0 {
        Ok(j)
    } else {
        Err(NO_LOCAL_TEXT@)
    }
}

/// `u` is the spoken text of line `i` of `lines`: that line, trimmed, is
/// not empty, is none of the engine's own log lines, and gives `u` once its
/// time stamps are taken off.
pub open spec fn spoken_from(lines: Seq<Seq<char>>, i: int, u: Seq<char>) -> bool {
    &&& 0 <= i < lines.len()
    &&& trim(lines[i]).len() > 0
    &&& !log_noise(trim(lines[i]))
    &&& u == strip_timestamp(trim(lines[i]))
}

/// Law: no engine log line reaches the transcript. Every piece of spoken
/// text is non-empty and is the spoken text of some line.
pub proof fn lemma_spoken_lines_origin(lines: Seq<Seq<char>>)
    ensures
        forall|k: int|
            0 <= k < spoken_lines(lines).len() ==> (#[trigger] spoken_lines(lines)[k]).len() > 0
                && exists|i: int| spoken_from(lines, i, spoken_lines(lines)[k]),
    decreases lines.len(),
{
    if lines.len() > 0 {
        let init = lines.drop_last();
        lemma_spoken_lines_origin(init);
        let r = spoken_lines(init);
        assert forall|k: int| 0 <= k < spoken_lines(lines).len() implies (
        #[trigger] spoken_lines(lines)[k]).len() > 0 && exists|i: int|
            spoken_from(lines, i, spoken_lines(lines)[k]) by {
            if k < r.len() {
                assert(r[k].len() > 0);
                let i = choose|i: int| spoken_from(init, i, r[k]);
                assert(lines[i] == init[i]);
                assert(spoken_lines(lines)[k] == r[k]);
                assert(spoken_from(lines, i, spoken_lines(lines)[k]));
            } else {
                assert(spoken_from(lines, lines.len() - 1, spoken_lines(lines)[k]));
            }
        }
    }
}

/// The views of a sequence of strings.
pub open spec fn string_views(v: Seq<String>) -> Seq<Seq<char>> {
    v.map_values(|x: String| x@)
}

proof fn lemma_first_index(cs: Seq<char>, lo: int, hi: int, k: int, c: char)
    requires
        0 <= lo <= k < hi <= cs.len(),
        cs[k] == c,
        forall|j: int| lo <= j < k ==> cs[j] != c,
    ensures
        first_index(cs.subrange(lo, hi), c) == k - lo,
    decreases k - lo,
{
    if lo < k {
        assert(cs.subrange(lo, hi).drop_first() =~= cs.subrange(lo + 1, hi));
        lemma_first_index(cs, lo + 1, hi, k, c);
    }
}

/// The spoken text of the line `lo..hi` of `s`, whose characters `cs` holds.
fn spoken_segment(s: &str, cs: &Vec<char>, lo: usize, hi: usize) -> (r: Option<String>)
    requires
        cs@ == s@,
        lo <= hi <= cs@.len(),
    ensures
        spoken_line(cs@.subrange(lo as int, hi as int)) == match r {
            Some(x) => Some(x@),
            None => None,
        },
{
    let ghost line = cs@.subrange(lo as int, hi as int);
    let (a, b) = trim_bounds(cs, lo, hi);
    let ghost t = cs@.subrange(a as int, b as int);
    if a == b {
        return None;
    }
    let noise = range_has_prefix(cs, a, b, &chars_of("whisper_")) || range_has_prefix(
        cs,
        a,
        b,
        &chars_of("system_info:"),
    ) || range_has_prefix(cs, a, b, &chars_of("main:")) || range_has_prefix(
        cs,
        a,
        b,
        &chars_of("load_backend:"),
    ) || range_has_prefix(cs, a, b, &chars_of("ggml_")) || range_has_prefix(
        cs,
        a,
        b,
        &chars_of("read_audio_data:"),
    ) || range_has_prefix(cs, a, b, &chars_of("alloc_tensor_range:")) || range_contains(
        cs,
        a,
        b,
        &chars_of("GGML_ASSERT"),
    ) || range_contains(cs, a, b, &chars_of("failed to allocate"));
    if noise {
        return None;
    }
    let open_bracket = vec!['['];
    let close_bracket = vec![']'];
    let arrow = chars_of("-->");
    assert(open_bracket@ == seq!['[']);
    assert(close_bracket@ == seq![']']);
    let (a2, b2) = if range_has_prefix(cs, a, b, &open_bracket) && range_contains(cs, a, b, &arrow)
        && range_contains(cs, a, b, &close_bracket) {
        match find_char(cs, a, b, ']') {
            Some(k) => {
                proof {
                    lemma_first_index(cs@, a as int, b as int, k as int, ']');
                    assert(t.subrange(k - a + 1, t.len() as int) =~= cs@.subrange(
                        k + 1,
                        b as int,
                    ));
                }
                trim_bounds(cs, k + 1, b)
            },
            None => {
                proof {
                    let i = choose|i: int| crate::text::occurs_at(t, seq![']'], i);
                    assert(t.subrange(i, i + 1)[0] == t[i]);
                    assert(cs@[a + i] == ']');
                }
                (a, b)
            },
        }
    } else {
        (a, b)
    };
    if a2 == b2 {
        return None;
    }
    Some(substring(s, cs, a2, b2))
}

/// The spoken text of the lines of `s`, in order.
pub fn spoken_lines_of(s: &str) -> (r: Vec<String>)
    ensures
        string_views(r@) == spoken_lines(split_lines(s@)),
{
    let cs = chars_of(s);
    let mut out: Vec<String> = Vec::new();
    let ghost mut done: Seq<Seq<char>> = Seq::empty();
    let mut start: usize = 0;
    let mut i: usize = 0;
    assert(cs@.take(0) =~= Seq::<char>::empty());
    assert(split_lines(cs@.take(0)) =~= done.push(cs@.subrange(0, 0)));
    while i < cs.len()
        invariant
            cs@ == s@,
            start <= i <= cs@.len(),
            split_lines(cs@.take(i as int)) == done.push(cs@.subrange(start as int, i as int)),
            string_views(out@) == spoken_lines(done),
        decreases cs@.len() - i,
    {
        let ghost r = done.push(cs@.subrange(start as int, i as int));
        assert(cs@.take(i + 1).drop_last() =~= cs@.take(i as int));
        assert(cs@.take(i + 1).last() == cs@[i as int]);
        if cs[i] == '\n' {
            let piece = spoken_segment(s, &cs, start, i);
            let ghost old_out = out@;
            match piece {
                Some(x) => {
                    out.push(x);
                },
                None => {},
            }
            proof {
                let seg = cs@.subrange(start as int, i as int);
                assert(done.push(seg).drop_last() =~= done);
                assert(string_views(out@) =~= spoken_lines(done.push(seg))) by {
                    assert(string_views(old_out) == spoken_lines(done));
                    assert(out@.len() >= old_out.len());
                    assert(string_views(out@) =~= match piece {
                        Some(x) => string_views(old_out).push(x@),
                        None => string_views(old_out),
                    });
                }
                done = done.push(seg);
                assert(cs@.subrange(i + 1, i + 1) =~= Seq::<char>::empty());
            }
            start = i + 1;
        } else {
            proof {
                assert(r.last() == cs@.subrange(start as int, i as int));
                assert(cs@.subrange(start as int, i as int).push(cs@[i as int]) =~= cs@.subrange(
                    start as int,
                    i + 1,
                ));
                assert(r.update(r.len() - 1, r.last().push(cs@[i as int])) =~= done.push(
                    cs@.subrange(start as int, i + 1),
                ));
            }
        }
        i = i + 1;
    }
    let piece = spoken_segment(s, &cs, start, cs.len());
    let ghost old_out = out@;
    match piece {
        Some(x) => {
            out.push(x);
        },
        None => {},
    }
    proof {
        let seg = cs@.subrange(start as int, cs@.len() as int);
        assert(cs@.take(cs@.len() as int) =~= cs@);
        assert(done.push(seg).drop_last() =~= done);
        assert(string_views(out@) =~= match piece {
            Some(x) => string_views(old_out).push(x@),
            None => string_views(old_out),
        });
    }
    out
}

/// The parts joined with single spaces.
pub fn join_with_spaces(parts: &Vec<String>) -> (r: String)
    ensures
        r@ == join(string_views(parts@), " "@),
{
    let ghost views = string_views(parts@);
    let mut r = String::new();
    let mut i: usize = 0;
    while i < parts.len()
        invariant
            i <= parts@.len(),
            views == string_views(parts@),
            r@ == join(views.take(i as int), " "@),
        decreases parts@.len() - i,
    {
        assert(views.take(i + 1).drop_last() =~= views.take(i as int));
        assert(views.take(i + 1).last() == parts@[i as int]@);
        if i == 0 {
            r.append(parts[i].as_str());
            assert(views.take(1) =~= seq![parts@[0]@]);
        } else {
            r.append(" ");
            r.append(parts[i].as_str());
        }
        i = i + 1;
    }
    assert(views.take(parts@.len() as int) =~= views);
    r
}

/// The transcript recovered from the engine's standard output and error.
pub fn whisper_log_transcript(stdout: &str, stderr: &str) -> (r: Result<String, String>)
    ensures
        result_view(r) == log_transcript(stdout@, stderr@),
{
    let mut parts = spoken_lines_of(stdout);
    let mut more = spoken_lines_of(stderr);
    let ghost a = parts@;
    let ghost b = more@;
    parts.append(&mut more);
    assert(string_views(parts@) =~= string_views(a) + string_views(b));
    let joined = join_with_spaces(&parts);
    let trimmed = trim_string(joined.as_str());
    if !trimmed.as_str().is_empty() {
        Ok(trimmed)
    } else {
        Err(String::from_str(NO_LOCAL_TEXT))
    }
}

/// The transcript of the offline engine: the text file it wrote, trimmed,
/// when that holds any text, and otherwise what its logs hold.
pub open spec fn local_transcript_of(file_text: Seq<char>, stdout: Seq<u8>, stderr: Seq<u8>) -> Result<Seq<char>, Seq<char>> {
    if trim(file_text).len() > 0 {
        Ok(trim(file_text))
    } else {
        log_transcript(utf8_lossy(stdout), utf8_lossy(stderr))
    }
}

/// The transcript of the offline engine from the text file it wrote (empty
/// when there is none) and the bytes of its standard output and error.
pub fn local_transcript(file_text: &str, stdout: &[u8], stderr: &[u8]) -> (r: Result<String, String>)
    ensures
        result_view(r) == local_transcript_of(file_text@, stdout@, stderr@),
        trim(file_text@).len() > 0 ==> result_view(r) == Ok::<Seq<char>, Seq<char>>(
            trim(file_text@),
        ),
        trim(file_text@).len() == 0 && vstd::utf8::valid_utf8(stdout@) && vstd::utf8::valid_utf8(
            stderr@,
        ) ==> result_view(r) == log_transcript(
            vstd::utf8::decode_utf8(stdout@),
            vstd::utf8::decode_utf8(stderr@),
        ),
{
    let text = trim_string(file_text);
    if !text.as_str().is_empty() {
        return Ok(text);
    }
    let out = from_utf8_lossy(stdout);
    let err = from_utf8_lossy(stderr);
    whisper_log_transcript(out.as_str(), err.as_str())
}

/// Law: when the transcript file holds any text, the transcript is the whole
/// file text without its surrounding white space: a range `i..j` of the file
/// that starts and ends with a character that is not white space, with only
/// white space outside it; the logs are not consulted.
pub proof fn lemma_transcript_file_wins(file_text: Seq<char>, stdout: Seq<u8>, stderr: Seq<u8>)
    requires
        exists|k: int| 0 <= k < file_text.len() && !is_white_space(#[trigger] file_text[k]),
    ensures
        local_transcript_of(file_text, stdout, stderr) matches Ok(t) && t.len() > 0 && !is_white_space(
            t[0],
        ) && !is_white_space(t.last()) && exists|i: int, j: int|
            0 <= i <= j <= file_text.len() && #[trigger] file_text.subrange(i, j) == t && (forall|
                k: int,
            | 0 <= k < i ==> is_white_space(#[trigger] file_text[k])) && (forall|k: int|
                j <= k < file_text.len() ==> is_white_space(#[trigger] file_text[k])),
{
    lemma_trim_keeps_core(file_text);
}

} // verus!
