//! Which files count as models, and the names import derives from them.

use vstd::prelude::*;

use crate::paths::{extension, file_stem, path_extension, path_file_stem};
use crate::text::{
    all_digits, all_digits_exec, ascii_lower_seq, ascii_lowercase, char_is_ascii_alphanumeric, chars_eq,
    chars_of, contains_exec, contains_seq, is_ascii_alphanumeric, lemma_rfind_finds, occurs_at,
    occurs_at_exec, rfind, rfind_exec, slice_chars, string_from,
};

verus! {

/// The maximal runs of ASCII letters and digits in `s`, in order.
pub open spec fn words(s: Seq<char>) -> Seq<Seq<char>>
    decreases s.len(),
{
    if s.len() == 0 {
        seq![]
    } else {
        let w = words(s.drop_last());
        let c = s.last();
        if !is_ascii_alphanumeric(c) {
            w
        } else if s.len() >= 2 && is_ascii_alphanumeric(s[s.len() - 2]) {
            w.drop_last().push(w.last().push(c))
        } else {
            w.push(seq![c])
        }
    }
}

/// The words `ws` joined by `-`.
pub open spec fn join_dash(ws: Seq<Seq<char>>) -> Seq<char>
    decreases ws.len(),
{
    if ws.len() == 0 {
        seq![]
    } else if ws.len() == 1 {
        ws[0]
    } else {
        join_dash(ws.drop_last()) + seq!['-'] + ws.last()
    }
}

/// The slug of a model name: its ASCII letters and digits in lower case, one
/// `-` between runs; `model` when there are none.
pub open spec fn slug_of(name: Seq<char>) -> Seq<char> {
    let ws = words(ascii_lower_seq(name));
    if ws.len() == 0 {
        "model"@
    } else {
        join_dash(ws)
    }
}

proof fn lemma_join_extend_last(ws: Seq<Seq<char>>, c: char)
    requires
        ws.len() > 0,
    ensures
        join_dash(ws.drop_last().push(ws.last().push(c))) == join_dash(ws).push(c),
{
    let n = ws.drop_last().push(ws.last().push(c));
    assert(n.drop_last() =~= ws.drop_last());
    if ws.len() > 1 {
        assert((join_dash(ws.drop_last()) + seq!['-'] + ws.last()).push(c) =~= join_dash(
            ws.drop_last(),
        ) + seq!['-'] + ws.last().push(c));
    }
}

proof fn lemma_join_push_word(ws: Seq<Seq<char>>, c: char)
    ensures
        join_dash(ws.push(seq![c])) == if ws.len() == 0 {
            seq![c]
        } else {
            join_dash(ws).push('-').push(c)
        },
{
    let n = ws.push(seq![c]);
    assert(n.drop_last() =~= ws);
    if ws.len() > 0 {
        assert(join_dash(ws) + seq!['-'] + seq![c] =~= join_dash(ws).push('-').push(c));
    }
}

/// The slug used in imported profile IDs, as the name's lower-case ASCII
/// words joined by `-`, or `model` when the name has none.
pub fn slug(name: &str) -> (r: String)
    ensures
        r@ == slug_of(name@),
{
    let raw = chars_of(name);
    let lower = ascii_lowercase(&raw);
    let ghost l = lower@;
    let mut out: Vec<char> = Vec::new();
    let mut i: usize = 0;
    assert(l.subrange(0, 0) =~= Seq::<char>::empty());
    while i < lower.len()
        invariant
            l == lower@,
            i <= lower.len(),
            out@ == join_dash(words(l.subrange(0, i as int))),
            (out@.len() == 0) == (words(l.subrange(0, i as int)).len() == 0),
            i > 0 && is_ascii_alphanumeric(l[i - 1]) ==> words(l.subrange(0, i as int)).len() > 0,
        decreases lower.len() - i,
    {
        let c = lower[i];
        let ghost prev = l.subrange(0, i as int);
        let ghost next = l.subrange(0, i + 1);
        assert(next.drop_last() =~= prev);
        assert(next.last() == c);
        if char_is_ascii_alphanumeric(c) {
            if i > 0 && char_is_ascii_alphanumeric(lower[i - 1]) {
                assert(next[next.len() - 2] == l[i - 1]);
                proof {
                    lemma_join_extend_last(words(prev), c);
                }
                out.push(c);
            } else {
                proof {
                    if i > 0 {
                        assert(next[next.len() - 2] == l[i - 1]);
                    }
                    lemma_join_push_word(words(prev), c);
                }
                if out.len() > 0 {
                    out.push('-');
                }
                out.push(c);
            }
        }
        i = i + 1;
    }
    assert(l.subrange(0, l.len() as int) =~= l);
    if out.len() == 0 {
        String::from_str("model")
    } else {
        string_from(&out)
    }
}

/// A file stem names the primary file of a model: not a multimodal
/// projector (`mmproj`), and, for a split model `NAME-XXXXX-of-YYYYY`, the
/// first shard.
pub open spec fn primary_stem(stem: Seq<char>) -> bool {
    let s = ascii_lower_seq(stem);
    if occurs_at(s, "mmproj"@, 0) || contains_seq(s, "-mmproj"@) {
        false
    } else {
        match rfind(s, "-of-"@) {
            Some(k) => {
                let prefix = s.subrange(0, k);
                let count = s.subrange(k + 4, s.len() as int);
                match rfind(prefix, "-"@) {
                    Some(m) => {
                        let part = prefix.subrange(m + 1, k);
                        if part.len() == 5 && count.len() == 5 && all_digits(part) && all_digits(
                            count,
                        ) {
                            part == "00001"@
                        } else {
                            true
                        }
                    },
                    None => true,
                }
            },
            None => true,
        }
    }
}

/// Whether a file with this stem is a model's primary file.
pub fn is_primary_stem(stem: &str) -> (r: bool)
    ensures
        r == primary_stem(stem@),
{
    let raw = chars_of(stem);
    let s = ascii_lowercase(&raw);
    let mmproj = chars_of("mmproj");
    let dash_mmproj = chars_of("-mmproj");
    if occurs_at_exec(&s, &mmproj, 0) || contains_exec(&s, &dash_mmproj) {
        return false;
    }
    let of = chars_of("-of-");
    let found = rfind_exec(&s, &of);
    match found {
        None => true,
        Some(k) => {
            proof {
                reveal_strlit("-of-");
                lemma_rfind_finds(s@, of@, s@.len() - of@.len());
                assert(occurs_at(s@, of@, k as int));
                assert(of@.len() == 4);
                assert(k + 4 <= s@.len());
            }
            let n = s.len();
            let prefix = slice_chars(&s, 0, k);
            let count = slice_chars(&s, k + 4, n);
            let dash = chars_of("-");
            match rfind_exec(&prefix, &dash) {
                None => true,
                Some(m) => {
                    proof {
                        reveal_strlit("-");
                        lemma_rfind_finds(prefix@, dash@, prefix@.len() - dash@.len());
                    }
                    let part = slice_chars(&prefix, m + 1, k);
                    assert(part@ == prefix@.subrange(m + 1, k as int));
                    if part.len() == 5 && count.len() == 5 && all_digits_exec(&part)
                        && all_digits_exec(&count) {
                        let first = chars_of("00001");
                        chars_eq(&part, &first)
                    } else {
                        true
                    }
                },
            }
        },
    }
}

/// The model file at `path` is a model's primary file: `true` when the path
/// has no file stem.
pub open spec fn primary_model(path: Seq<char>) -> bool {
    match path_file_stem(path) {
        Some(stem) => primary_stem(stem),
        None => true,
    }
}

/// Whether the model file at `path` should become a launch profile.
pub fn is_primary_model(path: &str) -> (r: bool)
    ensures
        r == primary_model(path@),
{
    match file_stem(path) {
        Some(stem) => is_primary_stem(stem.as_str()),
        None => true,
    }
}

/// The extension `e` is `gguf`, in any ASCII case.
pub open spec fn gguf_extension(e: Seq<char>) -> bool {
    ascii_lower_seq(e) == "gguf"@
}

/// A file at `path` is a GGUF model file by its extension.
pub open spec fn gguf_file(path: Seq<char>) -> bool {
    match path_extension(path) {
        Some(e) => gguf_extension(e),
        None => false,
    }
}

/// Whether the file at `path` has the extension `gguf`, in any ASCII case.
pub fn is_gguf_file(path: &str) -> (r: bool)
    ensures
        r == gguf_file(path@),
{
    match extension(path) {
        Some(e) => {
            let raw = chars_of(e.as_str());
            let lower = ascii_lowercase(&raw);
            let gguf = chars_of("gguf");
            chars_eq(&lower, &gguf)
        },
        None => false,
    }
}

/// What a scan of a model source does with one directory entry.
#[derive(Debug, PartialEq, Eq, Structural)]
pub enum ScanStep {
    /// Scan the directory too.
    Descend,
    /// The file may be a model: resolve it and check that it is primary.
    Candidate,
    /// Ignore the entry.
    Skip,
}

/// The step for the entry at `path`: directories are scanned, GGUF files
/// are model candidates, anything else is ignored.
pub open spec fn scan_step_of(path: Seq<char>, is_dir: bool, is_file: bool) -> ScanStep {
    if is_dir {
        ScanStep::Descend
    } else if is_file && gguf_file(path) {
        ScanStep::Candidate
    } else {
        ScanStep::Skip
    }
}

/// What a scan does with the entry at `path`, given what kind of entry it is.
pub fn scan_step(path: &str, is_dir: bool, is_file: bool) -> (r: ScanStep)
    ensures
        r == scan_step_of(path@, is_dir, is_file),
{
    if is_dir {
        ScanStep::Descend
    } else if is_file && is_gguf_file(path) {
        ScanStep::Candidate
    } else {
        ScanStep::Skip
    }
}

} // verus!
