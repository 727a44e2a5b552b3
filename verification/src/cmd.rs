//! Checks and small decisions shared by the commands: session ids that could
//! escape the storage directory, output paths, and the session picked from
//! the output of an interactive selector.

use vstd::prelude::*;

use crate::split::{first_line, lines_of, split_lines, trim, trim_seq};
use crate::text::{chars_of, contains_seq, push_chars_range, str_contains};

verus! {

// ───────────────────────── session ids ─────────────────────────

/// Whether a session id could name a path outside the storage directory: it
/// holds `..`, a `/` or a NUL character.
pub open spec fn id_traverses(id: Seq<char>) -> bool {
    contains_seq(id, ".."@) || contains_seq(id, "/"@) || contains_seq(id, "\0"@)
}

/// A session id is refused exactly when it could leave the storage
/// directory: one with a `/`, a `..` or a NUL anywhere in it is refused,
/// and one made only of letters, digits, `_` and `-` is accepted.
pub proof fn law_ids_that_could_escape_are_refused(a: Seq<char>, b: Seq<char>, id: Seq<char>)
    ensures
        id_traverses(a + "/"@ + b),
        id_traverses(a + ".."@ + b),
        id_traverses(a + "\0"@ + b),
        (forall|k: int|
            0 <= k < id.len() ==> ('a' <= #[trigger] id[k] <= 'z' || 'A' <= id[k] <= 'Z' || '0' <= id[k] <= '9'
                || id[k] == '_' || id[k] == '-')) ==> !id_traverses(id),
{
    reveal_strlit("/");
    reveal_strlit("..");
    reveal_strlit("\0");
    let l = a.len() as int;
    assert((a + "/"@ + b).subrange(l, l + 1) =~= "/"@);
    assert(crate::text::occurs_at(a + "/"@ + b, "/"@, l));
    assert((a + ".."@ + b).subrange(l, l + 2) =~= ".."@);
    assert(crate::text::occurs_at(a + ".."@ + b, ".."@, l));
    assert((a + "\0"@ + b).subrange(l, l + 1) =~= "\0"@);
    assert(crate::text::occurs_at(a + "\0"@ + b, "\0"@, l));
    if forall|k: int|
        0 <= k < id.len() ==> ('a' <= #[trigger] id[k] <= 'z' || 'A' <= id[k] <= 'Z' || '0' <= id[k] <= '9'
            || id[k] == '_' || id[k] == '-') {
        assert forall|i: int| !crate::text::occurs_at(id, "/"@, i) by {
            if crate::text::occurs_at(id, "/"@, i) {
                assert(id.subrange(i, i + 1)[0] == id[i]);
            }
        }
        assert forall|i: int| !crate::text::occurs_at(id, ".."@, i) by {
            if crate::text::occurs_at(id, ".."@, i) {
                assert(id.subrange(i, i + 2)[0] == id[i]);
            }
        }
        assert forall|i: int| !crate::text::occurs_at(id, "\0"@, i) by {
            if crate::text::occurs_at(id, "\0"@, i) {
                assert(id.subrange(i, i + 1)[0] == id[i]);
            }
        }
    }
}

/// A session id refused because it could escape the storage directory.
pub struct InvalidSessionId;

impl InvalidSessionId {
    /// The message shown for this error.
    pub fn message(&self) -> (r: String)
        ensures
            r@ == "Invalid session ID: path traversal detected"@,
    {
        String::from_str("Invalid session ID: path traversal detected")
    }
}

/// Accepts a session id unless it could escape the storage directory.
pub fn validate_session_id(id: &str) -> (r: Result<(), InvalidSessionId>)
    ensures
        r is Ok <==> !id_traverses(id@),
{
    if str_contains(id, "..") || str_contains(id, "/") || str_contains(id, "\0") {
        Err(InvalidSessionId)
    } else {
        Ok(())
    }
}

// ───────────────────────── output paths ─────────────────────────

/// An output path refused because it holds `..`.
pub struct UnsafeOutputPath {
    pub path: String,
}

impl UnsafeOutputPath {
    /// The message shown for this error.
    pub fn message(&self) -> (r: String)
        ensures
            r@ == "Output path must not contain '..': "@ + self.path@,
    {
        let mut r = String::from_str("Output path must not contain '..': ");
        r.append(self.path.as_str());
        r
    }
}

/// The temporary file an atomic write of `path` goes through (`<path>.tmp`),
/// unless the path holds `..`, which is refused.
pub fn temp_path_for(path: &str) -> (r: Result<String, UnsafeOutputPath>)
    ensures
        r is Err <==> contains_seq(path@, ".."@),
        r matches Err(e) ==> e.path@ == path@,
        r matches Ok(t) ==> t@ == path@ + ".tmp"@,
{
    if str_contains(path, "..") {
        Err(UnsafeOutputPath { path: String::from_str(path) })
    } else {
        let mut t = String::from_str(path);
        t.append(".tmp");
        Ok(t)
    }
}

// ───────────────────────── selector output ─────────────────────────

/// The part of `s` before the first `c` (all of `s` when there is none).
pub open spec fn before_char(s: Seq<char>, c: char) -> Seq<char>
    decreases s.len(),
{
    if s.len() == 0 || s[0] == c {
        Seq::empty()
    } else {
        seq![s[0]] + before_char(s.skip(1), c)
    }
}

proof fn lemma_before_char(s: Seq<char>, c: char, i: int)
    requires
        0 <= i <= s.len(),
        forall|k: int| 0 <= k < i ==> #[trigger] s[k] != c,
        i == s.len() || s[i] == c,
    ensures
        before_char(s, c) == s.take(i),
    decreases s.len(),
{
    if s.len() > 0 && s[0] != c {
        assert forall|k: int| 0 <= k < i - 1 implies #[trigger] s.skip(1)[k] != c by {
            assert(s.skip(1)[k] == s[k + 1]);
        }
        if i < s.len() {
            assert(s.skip(1)[i - 1] == s[i]);
        }
        lemma_before_char(s.skip(1), c, i - 1);
        assert(seq![s[0]] + s.skip(1).take(i - 1) =~= s.take(i));
    } else {
        assert(s.take(i) =~= Seq::<char>::empty());
    }
}

/// The characters of `s` before the first `c`.
pub fn prefix_before(s: &str, c: char) -> (r: String)
    ensures
        r@ == before_char(s@, c),
{
    let cs = chars_of(s);
    let mut i: usize = 0;
    while i < cs.len() && cs[i] != c
        invariant
            i <= cs.len(),
            cs@ == s@,
            forall|k: int| 0 <= k < i ==> #[trigger] cs@[k] != c,
        decreases cs.len() - i,
    {
        i = i + 1;
    }
    proof {
        lemma_before_char(s@, c, i as int);
    }
    let mut out = String::new();
    push_chars_range(&mut out, &cs, 0, i);
    assert(cs@.subrange(0, i as int) =~= s@.take(i as int));
    out
}

/// The session id in the output of a selector: the first field (up to a tab)
/// of the first line, trimmed, when that is not empty.
pub open spec fn selected_id(output: Seq<char>) -> Option<Seq<char>> {
    match first_line(output) {
        Some(line) => {
            let f = trim_seq(before_char(line, '\t'));
            if f.len() > 0 {
                Some(f)
            } else {
                None
            }
        },
        None => None,
    }
}

/// The session id picked in a selector, read from what it printed (see
/// [`selected_id`]).
pub fn selected_session_id(output: &str) -> (r: Option<String>)
    ensures
        match r {
            Some(s) => selected_id(output@) == Some(s@),
            None => selected_id(output@) is None,
        },
{
    let lines = split_lines(output);
    if lines.len() == 0 {
        return None;
    }
    proof {
        assert(lines@[0]@ == lines_of(output@)[0]);
    }
    let field = prefix_before(lines[0].as_str(), '\t');
    let id = trim(field.as_str());
    if id.as_str().unicode_len() > 0 {
        Some(id)
    } else {
        None
    }
}

} // verus!
