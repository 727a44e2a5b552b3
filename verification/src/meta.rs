//! The sidecar metadata of sessions: tags, notes and auto-tag rules.
//!
//! The store itself is read from and written to disk by the application; the
//! operations here take it as a value and change it in memory.

use vstd::prelude::*;

use crate::keyed::{
    clone_strings, find_key, has_key, keys_unique, lemma_frame_push, lemma_frame_remove,
    lemma_frame_set, lemma_slot, slot,
};
use crate::models::AutoTagRule;
use crate::sorted::{contains_str, insert_sorted_unique, sorted_set_of, sorted_unique, strictly_sorted};
use crate::text::{lemma_seq_le_total, lemma_seq_lt_trans, seq_lt, str_eq, str_le, strs};

verus! {

/// Tags, notes and auto-tag rules of sessions, keyed by session id.
pub struct OcsMeta {
    /// `(session id, tags)` pairs; no session id occurs twice.
    pub tags: Vec<(String, Vec<String>)>,
    /// `(session id, note)` pairs; no session id occurs twice.
    pub notes: Vec<(String, String)>,
    pub autotag_rules: Vec<AutoTagRule>,
}

/// The tags of a list with every occurrence of `t` taken out.
pub open spec fn without(s: Seq<Seq<char>>, t: Seq<char>) -> Seq<Seq<char>>
    decreases s.len(),
{
    if s.len() == 0 {
        s
    } else if s.last() == t {
        without(s.drop_last(), t)
    } else {
        without(s.drop_last(), t).push(s.last())
    }
}

/// `after` is the tag list that adding `tag` to `before` leaves: unchanged
/// when the tag is already there, otherwise the sorted distinct tags of
/// `before` and `tag`.
pub open spec fn added_tag_list(before: Seq<Seq<char>>, tag: Seq<char>, after: Seq<Seq<char>>) -> bool {
    if before.contains(tag) {
        after == before
    } else {
        sorted_set_of(after, before.push(tag))
    }
}

/// What [`add_tag`] does: notes and rules unchanged, the session gains an
/// entry if it had none, every other session keeps its tags, and the
/// session's list becomes [`added_tag_list`] of the old one.
pub open spec fn tag_added(before: OcsMeta, after: OcsMeta, sid: Seq<char>, tag: Seq<char>) -> bool {
    &&& after.notes@ == before.notes@
    &&& after.autotag_rules@ == before.autotag_rules@
    &&& after.tag_map().dom() == before.tag_map().dom().insert(sid)
    &&& forall|k: Seq<char>|
        k != sid && before.tag_map().contains_key(k) ==> after.tag_map()[k] == before.tag_map()[k]
    &&& added_tag_list(before.tags_of(sid), tag, after.tag_map()[sid])
}

/// What [`remove_tag`] does: `found` tells whether the session had the tag;
/// only then is its list changed, to the list without the tag, and a list
/// left empty is dropped.
pub open spec fn tag_removed(
    before: OcsMeta,
    after: OcsMeta,
    sid: Seq<char>,
    tag: Seq<char>,
    found: bool,
) -> bool {
    let rest = without(before.tags_of(sid), tag);
    &&& after.notes@ == before.notes@
    &&& after.autotag_rules@ == before.autotag_rules@
    &&& found == before.tags_of(sid).contains(tag)
    &&& !found ==> after.tag_map() == before.tag_map()
    &&& found && rest.len() == 0 ==> after.tag_map() == before.tag_map().remove(sid)
    &&& found && rest.len() > 0 ==> after.tag_map() == before.tag_map().insert(sid, rest)
}

/// What [`set_note`] does: an empty text removes the session's note, any
/// other text becomes its note; tags and rules unchanged.
pub open spec fn note_set(before: OcsMeta, after: OcsMeta, sid: Seq<char>, text: Seq<char>) -> bool {
    &&& after.tags@ == before.tags@
    &&& after.autotag_rules@ == before.autotag_rules@
    &&& text.len() == 0 ==> after.note_map() == before.note_map().remove(sid)
    &&& text.len() > 0 ==> after.note_map() == before.note_map().insert(sid, text)
}

/// What [`remove_note`] does: the session's note is gone, and `existed` tells
/// whether it had one; tags and rules unchanged.
pub open spec fn note_removed(before: OcsMeta, after: OcsMeta, sid: Seq<char>, existed: bool) -> bool {
    &&& after.tags@ == before.tags@
    &&& after.autotag_rules@ == before.autotag_rules@
    &&& existed == before.note_map().contains_key(sid)
    &&& after.note_map() == before.note_map().remove(sid)
}

impl OcsMeta {
    /// No session id occurs twice in the tag table or in the note table.
    pub open spec fn wf(&self) -> bool {
        keys_unique(self.tags@) && keys_unique(self.notes@)
    }

    /// The tag table as a map from session id to its tag list.
    pub open spec fn tag_map(&self) -> Map<Seq<char>, Seq<Seq<char>>> {
        Map::new(
            |k: Seq<char>| has_key(self.tags@, k),
            |k: Seq<char>| strs(self.tags@[slot(self.tags@, k)].1@),
        )
    }

    /// The tags of session `k` (empty when it has no entry).
    pub open spec fn tags_of(&self, k: Seq<char>) -> Seq<Seq<char>> {
        if self.tag_map().contains_key(k) {
            self.tag_map()[k]
        } else {
            Seq::empty()
        }
    }

    /// The note table as a map from session id to its note.
    pub open spec fn note_map(&self) -> Map<Seq<char>, Seq<char>> {
        Map::new(
            |k: Seq<char>| has_key(self.notes@, k),
            |k: Seq<char>| self.notes@[slot(self.notes@, k)].1@,
        )
    }
}

/// Adds `tag` to the tags of a session: a tag already present leaves the list
/// as it is; otherwise the list becomes the sorted distinct tags of the old
/// list and the new tag. A session without tags gets an entry.
pub fn add_tag(meta: &mut OcsMeta, session_id: &str, tag: &str)
    requires
        old(meta).wf(),
    ensures
        final(meta).wf(),
        tag_added(*old(meta), *final(meta), session_id@, tag@),
{
    let ghost old_tags = meta.tags@;
    match find_key(&meta.tags, session_id) {
        Some(i) => {
            proof {
                lemma_slot(old_tags, i as int);
            }
            if contains_str(&meta.tags[i].1, tag) {
                assert(final(meta).tag_map() =~= old(meta).tag_map());
                assert(old(meta).tag_map().dom().insert(session_id@) =~= old(meta).tag_map().dom());
                return;
            }
            let mut list = clone_strings(&meta.tags[i].1);
            list.push(String::from_str(tag));
            let sorted = sorted_unique(&list);
            let key = meta.tags[i].0.clone();
            meta.tags.set(i, (key, sorted));
            proof {
                lemma_frame_set(old_tags, meta.tags@, i as int);
                assert(strs(list@) =~= strs(old_tags[i as int].1@).push(tag@));
                assert(meta.tag_map().dom() =~= old(meta).tag_map().dom().insert(session_id@));
            }
        },
        None => {
            let mut list: Vec<String> = Vec::new();
            list.push(String::from_str(tag));
            let entry = (String::from_str(session_id), list);
            meta.tags.push(entry);
            proof {
                lemma_frame_push(old_tags, entry);
                assert(meta.tags@ == old_tags.push(entry));
                assert(meta.tag_map().dom() =~= old(meta).tag_map().dom().insert(session_id@));
                let after = strs(list@);
                assert(after =~= seq![tag@]);
                assert(old(meta).tags_of(session_id@) =~= Seq::<Seq<char>>::empty());
                assert(Seq::<Seq<char>>::empty().push(tag@) =~= seq![tag@]);
            }
        },
    }
}

/// Removes `tag` from the tags of a session. Returns whether the session had
/// that tag; only then is anything changed, and a session left without tags
/// loses its entry.
pub fn remove_tag(meta: &mut OcsMeta, session_id: &str, tag: &str) -> (found: bool)
    requires
        old(meta).wf(),
    ensures
        final(meta).wf(),
        tag_removed(*old(meta), *final(meta), session_id@, tag@, found),
{
    let ghost old_tags = meta.tags@;
    match find_key(&meta.tags, session_id) {
        None => {
            assert(old(meta).tags_of(session_id@) =~= Seq::<Seq<char>>::empty());
            false
        },
        Some(i) => {
            proof {
                lemma_slot(old_tags, i as int);
            }
            if !contains_str(&meta.tags[i].1, tag) {
                return false;
            }
            let ghost before = strs(old_tags[i as int].1@);
            let mut kept: Vec<String> = Vec::new();
            let mut j: usize = 0;
            while j < meta.tags[i].1.len()
                invariant
                    meta.tags@ == old_tags,
                    i < old_tags.len(),
                    before == strs(old_tags[i as int].1@),
                    j <= before.len(),
                    strs(kept@) == without(before.take(j as int), tag@),
                decreases before.len() - j,
            {
                let ghost prev = kept@;
                if !str_eq(meta.tags[i].1[j].as_str(), tag) {
                    kept.push(meta.tags[i].1[j].clone());
                    assert(strs(kept@) =~= strs(prev).push(before[j as int]));
                } else {
                    assert(kept@ == prev);
                }
                proof {
                    assert(before.take(j + 1).drop_last() =~= before.take(j as int));
                    assert(before.take(j + 1).last() == before[j as int]);

                    assert(strs(kept@) =~= without(before.take(j + 1), tag@));
                }
                j = j + 1;
            }
            assert(before.take(before.len() as int) =~= before);
            if kept.len() == 0 {
                meta.tags.remove(i);
                proof {
                    lemma_frame_remove(old_tags, i as int);
                    assert(meta.tag_map() =~= old(meta).tag_map().remove(session_id@));
                }
            } else {
                let key = meta.tags[i].0.clone();
                meta.tags.set(i, (key, kept));
                proof {
                    lemma_frame_set(old_tags, meta.tags@, i as int);
                    assert(meta.tag_map() =~= old(meta).tag_map().insert(session_id@, without(before, tag@)));
                }
            }
            true
        },
    }
}

/// The tags of a session (empty when it has none).
pub fn list_tags(meta: &OcsMeta, session_id: &str) -> (r: Vec<String>)
    requires
        meta.wf(),
    ensures
        strs(r@) == meta.tags_of(session_id@),
{
    match find_key(&meta.tags, session_id) {
        Some(i) => clone_strings(&meta.tags[i].1),
        None => {
            let r: Vec<String> = Vec::new();
            assert(strs(r@) =~= Seq::<Seq<char>>::empty());
            r
        },
    }
}

/// Sets the note of a session; an empty text removes the note.
pub fn set_note(meta: &mut OcsMeta, session_id: &str, text: &str)
    requires
        old(meta).wf(),
    ensures
        final(meta).wf(),
        note_set(*old(meta), *final(meta), session_id@, text@),
{
    if text.unicode_len() == 0 {
        remove_note(meta, session_id);
    } else {
        let ghost old_notes = meta.notes@;
        match find_key(&meta.notes, session_id) {
            Some(i) => {
                let key = meta.notes[i].0.clone();
                meta.notes.set(i, (key, String::from_str(text)));
                proof {
                    lemma_frame_set(old_notes, meta.notes@, i as int);
                    assert(meta.note_map() =~= old(meta).note_map().insert(session_id@, text@));
                }
            },
            None => {
                let entry = (String::from_str(session_id), String::from_str(text));
                meta.notes.push(entry);
                proof {
                    lemma_frame_push(old_notes, entry);
                    assert(meta.note_map() =~= old(meta).note_map().insert(session_id@, text@));
                }
            },
        }
    }
}

/// The note of a session, if it has one.
pub fn get_note(meta: &OcsMeta, session_id: &str) -> (r: Option<String>)
    requires
        meta.wf(),
    ensures
        r is Some <==> meta.note_map().contains_key(session_id@),
        r matches Some(n) ==> n@ == meta.note_map()[session_id@],
{
    match find_key(&meta.notes, session_id) {
        Some(i) => Some(meta.notes[i].1.clone()),
        None => None,
    }
}

/// Removes the note of a session; returns whether it had one.
pub fn remove_note(meta: &mut OcsMeta, session_id: &str) -> (existed: bool)
    requires
        old(meta).wf(),
    ensures
        final(meta).wf(),
        note_removed(*old(meta), *final(meta), session_id@, existed),
{
    let ghost old_notes = meta.notes@;
    match find_key(&meta.notes, session_id) {
        Some(i) => {
            meta.notes.remove(i);
            proof {
                lemma_frame_remove(old_notes, i as int);
                assert(meta.note_map() =~= old(meta).note_map().remove(session_id@));
            }
            true
        },
        None => {
            assert(meta.note_map() =~= old(meta).note_map().remove(session_id@));
            false
        },
    }
}


// ───────────────────────── listing ─────────────────────────

/// The keys of a keyed list, in order.
pub open spec fn keys_of<V>(e: Seq<(String, V)>) -> Seq<Seq<char>> {
    Seq::new(e.len(), |i: int| e[i].0@)
}

/// Inserts `x` into a list sorted by key, at the place its key sorts to.
fn insert_by_key<V>(v: &mut Vec<(String, V)>, x: (String, V))
    requires
        strictly_sorted(keys_of(old(v)@)),
        !has_key(old(v)@, x.0@),
    ensures
        strictly_sorted(keys_of(final(v)@)),
        exists|k: int| 0 <= k <= old(v)@.len() && final(v)@ == old(v)@.insert(k, x),
{
    let ghost ov = v@;
    let mut k: usize = 0;
    while k < v.len() && str_le(v[k].0.as_str(), x.0.as_str())
        invariant
            k <= v.len(),
            v@ == ov,
            strictly_sorted(keys_of(ov)),
            !has_key(ov, x.0@),
            forall|j: int| 0 <= j < k ==> seq_lt(#[trigger] keys_of(ov)[j], x.0@),
        decreases v.len() - k,
    {
        proof {
            assert(ov[k as int].0@ != x.0@);
            assert(keys_of(ov)[k as int] == ov[k as int].0@);
        }
        k = k + 1;
    }
    proof {
        if k < v.len() {
            assert(ov[k as int].0@ != x.0@);
            lemma_seq_le_total(ov[k as int].0@, x.0@);
        }
    }
    let ghost xk = x.0@;
    let ghost xx = x;
    v.insert(k, x);
    proof {
        let nk = keys_of(v@);
        let ok = keys_of(ov);
        assert(nk =~= ok.insert(k as int, xk));
        assert forall|i: int, j: int| 0 <= i < j < nk.len() implies seq_lt(#[trigger] nk[i], #[trigger] nk[j]) by {
            if j < k {
                assert(nk[i] == ok[i] && nk[j] == ok[j]);
            } else if j == k {
                assert(nk[i] == ok[i]);
            } else if i == k {
                assert(nk[j] == ok[j - 1]);
                assert(seq_lt(xk, ok[k as int]));
                if j - 1 > k {
                    lemma_seq_lt_trans(xk, ok[k as int], ok[j - 1]);
                }
            } else if i < k {
                assert(nk[i] == ok[i] && nk[j] == ok[j - 1]);
            } else {
                assert(nk[i] == ok[i - 1] && nk[j] == ok[j - 1]);
            }
        }
        assert(v@ == ov.insert(k as int, xx));
    }
}

/// The sessions tagged with `tag`, each with all its tags, sorted by
/// session id.
pub fn search_by_tag(meta: &OcsMeta, tag: &str) -> (r: Vec<(String, Vec<String>)>)
    requires
        meta.wf(),
    ensures
        strictly_sorted(keys_of(r@)),
        forall|m: int|
            0 <= m < r@.len() ==> {
                &&& meta.tag_map().contains_key(#[trigger] r@[m].0@)
                &&& strs(r@[m].1@) == meta.tag_map()[r@[m].0@]
                &&& meta.tag_map()[r@[m].0@].contains(tag@)
            },
        forall|k: Seq<char>|
            meta.tag_map().contains_key(k) && meta.tag_map()[k].contains(tag@) ==> has_key(r@, k),
{
    let mut r: Vec<(String, Vec<String>)> = Vec::new();
    let mut i: usize = 0;
    while i < meta.tags.len()
        invariant
            meta.wf(),
            i <= meta.tags.len(),
            strictly_sorted(keys_of(r@)),
            forall|m: int|
                0 <= m < r@.len() ==> {
                    &&& meta.tag_map().contains_key(#[trigger] r@[m].0@)
                    &&& strs(r@[m].1@) == meta.tag_map()[r@[m].0@]
                    &&& meta.tag_map()[r@[m].0@].contains(tag@)
                },
            forall|m: int| 0 <= m < r@.len() ==> slot(meta.tags@, #[trigger] r@[m].0@) < i,
            forall|j: int|
                0 <= j < i && strs(#[trigger] meta.tags@[j].1@).contains(tag@) ==> has_key(
                    r@,
                    meta.tags@[j].0@,
                ),
        decreases meta.tags.len() - i,
    {
        proof {
            lemma_slot(meta.tags@, i as int);
        }
        if contains_str(&meta.tags[i].1, tag) {
            let entry = (meta.tags[i].0.clone(), clone_strings(&meta.tags[i].1));
            proof {
                if has_key(r@, entry.0@) {
                    let m = choose|m: int| 0 <= m < r@.len() && #[trigger] r@[m].0@ == entry.0@;
                    assert(slot(meta.tags@, r@[m].0@) < i);
                }
            }
            let ghost old_r = r@;
            insert_by_key(&mut r, entry);
            proof {
                let k = choose|k: int| 0 <= k <= old_r.len() && r@ == old_r.insert(k, entry);
                assert forall|m: int| 0 <= m < r@.len() implies {
                    &&& meta.tag_map().contains_key(#[trigger] r@[m].0@)
                    &&& strs(r@[m].1@) == meta.tag_map()[r@[m].0@]
                    &&& meta.tag_map()[r@[m].0@].contains(tag@)
                } && slot(meta.tags@, r@[m].0@) < i + 1 by {
                    if m < k {
                        assert(r@[m] == old_r[m]);
                    } else if m > k {
                        assert(r@[m] == old_r[m - 1]);
                    }
                }
                assert forall|j: int|
                    0 <= j < i + 1 && strs(#[trigger] meta.tags@[j].1@).contains(tag@) implies has_key(
                    r@,
                    meta.tags@[j].0@,
                ) by {
                    if j == i {
                        assert(r@[k].0@ == meta.tags@[j].0@);
                    } else {
                        let m = choose|m: int| 0 <= m < old_r.len() && #[trigger] old_r[m].0@ == meta.tags@[j].0@;
                        if m < k {
                            assert(r@[m] == old_r[m]);
                        } else {
                            assert(r@[m + 1] == old_r[m]);
                        }
                    }
                }
            }
        }
        i = i + 1;
    }
    proof {
        assert forall|k: Seq<char>|
            meta.tag_map().contains_key(k) && meta.tag_map()[k].contains(tag@) implies has_key(r@, k) by {
            let j = choose|j: int| 0 <= j < meta.tags@.len() && #[trigger] meta.tags@[j].0@ == k;
            lemma_slot(meta.tags@, j);
        }
    }
    r
}

/// The ids of the sessions that have a note, sorted.
pub fn list_annotated_ids(meta: &OcsMeta) -> (r: Vec<String>)
    requires
        meta.wf(),
    ensures
        strictly_sorted(strs(r@)),
        forall|k: Seq<char>| strs(r@).contains(k) <==> meta.note_map().contains_key(k),
{
    let mut r: Vec<String> = Vec::new();
    let mut i: usize = 0;
    while i < meta.notes.len()
        invariant
            i <= meta.notes.len(),
            strictly_sorted(strs(r@)),
            forall|k: Seq<char>|
                strs(r@).contains(k) <==> exists|j: int| 0 <= j < i && #[trigger] meta.notes@[j].0@ == k,
        decreases meta.notes.len() - i,
    {
        let ghost before = strs(r@);
        insert_sorted_unique(&mut r, meta.notes[i].0.clone());
        proof {
            assert forall|k: Seq<char>|
                strs(r@).contains(k) <==> exists|j: int| 0 <= j < i + 1 && #[trigger] meta.notes@[j].0@ == k by {
                if strs(r@).contains(k) {
                    assert(before.push(meta.notes@[i as int].0@).contains(k));
                    let m = choose|m: int| 0 <= m < before.push(meta.notes@[i as int].0@).len() && before.push(meta.notes@[i as int].0@)[m] == k;
                    if m == before.len() {
                        assert(meta.notes@[i as int].0@ == k);
                    } else {
                        assert(before.contains(k));
                    }
                }
                if exists|j: int| 0 <= j < i + 1 && #[trigger] meta.notes@[j].0@ == k {
                    let j = choose|j: int| 0 <= j < i + 1 && #[trigger] meta.notes@[j].0@ == k;
                    if j == i {
                        assert(before.push(meta.notes@[i as int].0@)[before.len() as int] == k);
                    } else {
                        assert(before.contains(k));
                        let m = choose|m: int| 0 <= m < before.len() && before[m] == k;
                        assert(before.push(meta.notes@[i as int].0@)[m] == k);
                    }
                }
            }
        }
        i = i + 1;
    }
    r
}


// ───────────────────────── tag counts ─────────────────────────

/// How many times `t` occurs in `s`.
pub open spec fn occurrences(s: Seq<Seq<char>>, t: Seq<char>) -> nat
    decreases s.len(),
{
    if s.len() == 0 {
        0
    } else {
        occurrences(s.drop_last(), t) + if s.last() == t {
            1nat
        } else {
            0nat
        }
    }
}

/// How many times `t` occurs over all the tag lists of `e`.
pub open spec fn tag_count(e: Seq<(String, Vec<String>)>, t: Seq<char>) -> nat
    decreases e.len(),
{
    if e.len() == 0 {
        0
    } else {
        tag_count(e.drop_last(), t) + occurrences(strs(e.last().1@), t)
    }
}

/// The number of tags over all the tag lists of `e`, repeats included.
pub open spec fn total_tags(e: Seq<(String, Vec<String>)>) -> nat
    decreases e.len(),
{
    if e.len() == 0 {
        0
    } else {
        total_tags(e.drop_last()) + e.last().1@.len()
    }
}

/// `a` ranks before `b`: a higher count, or an equal count and a name that
/// sorts first.
pub open spec fn count_ranks_before(a: (String, usize), b: (String, usize)) -> bool {
    a.1 > b.1 || (a.1 == b.1 && seq_lt(a.0@, b.0@))
}

proof fn lemma_occurrences_le(s: Seq<Seq<char>>, t: Seq<char>)
    ensures
        occurrences(s, t) <= s.len(),
    decreases s.len(),
{
    if s.len() > 0 {
        lemma_occurrences_le(s.drop_last(), t);
    }
}

proof fn lemma_tag_count_le(e: Seq<(String, Vec<String>)>, t: Seq<char>)
    ensures
        tag_count(e, t) <= total_tags(e),
    decreases e.len(),
{
    if e.len() > 0 {
        lemma_tag_count_le(e.drop_last(), t);
        lemma_occurrences_le(strs(e.last().1@), t);
    }
}

proof fn lemma_total_tags_prefix(e: Seq<(String, Vec<String>)>, i: int)
    requires
        0 <= i <= e.len(),
    ensures
        total_tags(e.take(i)) <= total_tags(e),
    decreases e.len() - i,
{
    if i < e.len() {
        lemma_total_tags_prefix(e, i + 1);
        assert(e.take(i + 1).drop_last() =~= e.take(i));
    } else {
        assert(e.take(i) =~= e);
    }
}

/// Whether `a` ranks before `b` (see [`count_ranks_before`]).
fn ranks_before(a: &(String, usize), b: &(String, usize)) -> (r: bool)
    ensures
        r == count_ranks_before(*a, *b),
{
    if a.1 != b.1 {
        a.1 > b.1
    } else {
        str_le(a.0.as_str(), b.0.as_str()) && !str_eq(a.0.as_str(), b.0.as_str())
    }
}

proof fn lemma_ranks_trans(a: (String, usize), b: (String, usize), c: (String, usize))
    requires
        count_ranks_before(a, b),
        count_ranks_before(b, c),
    ensures
        count_ranks_before(a, c),
{
    if a.1 == b.1 && b.1 == c.1 {
        lemma_seq_lt_trans(a.0@, b.0@, c.0@);
    }
}

proof fn lemma_ranks_total(a: (String, usize), b: (String, usize))
    requires
        a.0@ != b.0@,
    ensures
        count_ranks_before(a, b) || count_ranks_before(b, a),
{
    lemma_seq_le_total(a.0@, b.0@);
}

/// Inserts `x` into a list ranked by [`count_ranks_before`].
fn insert_ranked(v: &mut Vec<(String, usize)>, x: (String, usize))
    requires
        forall|i: int, j: int|
            0 <= i < j < old(v)@.len() ==> count_ranks_before(#[trigger] old(v)@[i], #[trigger] old(v)@[j]),
        !has_key(old(v)@, x.0@),
    ensures
        forall|i: int, j: int|
            0 <= i < j < final(v)@.len() ==> count_ranks_before(#[trigger] final(v)@[i], #[trigger] final(v)@[j]),
        exists|k: int| 0 <= k <= old(v)@.len() && final(v)@ == old(v)@.insert(k, x),
{
    let ghost ov = v@;
    let mut k: usize = 0;
    while k < v.len() && ranks_before(&v[k], &x)
        invariant
            k <= v.len(),
            v@ == ov,
            forall|j: int| 0 <= j < k ==> count_ranks_before(#[trigger] ov[j], x),
        decreases v.len() - k,
    {
        k = k + 1;
    }
    proof {
        if k < v.len() {
            assert(ov[k as int].0@ != x.0@);
            lemma_ranks_total(ov[k as int], x);
        }
    }
    let ghost xx = x;
    v.insert(k, x);
    proof {
        let nv = v@;
        assert(nv =~= ov.insert(k as int, xx));
        assert forall|i: int, j: int| 0 <= i < j < nv.len() implies count_ranks_before(#[trigger] nv[i], #[trigger] nv[j]) by {
            if j < k {
                assert(nv[i] == ov[i] && nv[j] == ov[j]);
            } else if j == k {
                assert(nv[i] == ov[i]);
            } else if i == k {
                assert(nv[j] == ov[j - 1]);
                if j - 1 > k {
                    lemma_ranks_trans(xx, ov[k as int], ov[j - 1]);
                }
            } else if i < k {
                assert(nv[i] == ov[i] && nv[j] == ov[j - 1]);
            } else {
                assert(nv[i] == ov[i - 1] && nv[j] == ov[j - 1]);
            }
        }
    }
}

/// Every tag in use with the number of times it occurs over all sessions,
/// most used first and, among equally used tags, by name.
pub fn all_tags(meta: &OcsMeta) -> (r: Vec<(String, usize)>)
    requires
        total_tags(meta.tags@) <= usize::MAX,
    ensures
        keys_unique(r@),
        forall|m: int| 0 <= m < r@.len() ==> #[trigger] r@[m].1 == tag_count(meta.tags@, r@[m].0@) && r@[m].1 > 0,
        forall|t: Seq<char>| tag_count(meta.tags@, t) > 0 ==> has_key(r@, t),
        forall|a: int, b: int| 0 <= a < b < r@.len() ==> count_ranks_before(#[trigger] r@[a], #[trigger] r@[b]),
{
    let ghost e = meta.tags@;
    let mut counts: Vec<(String, usize)> = Vec::new();
    let mut i: usize = 0;
    while i < meta.tags.len()
        invariant
            e == meta.tags@,
            total_tags(e) <= usize::MAX,
            i <= e.len(),
            keys_unique(counts@),
            forall|m: int|
                0 <= m < counts@.len() ==> #[trigger] counts@[m].1 == tag_count(e.take(i as int), counts@[m].0@)
                    && counts@[m].1 > 0,
            forall|t: Seq<char>| tag_count(e.take(i as int), t) > 0 ==> has_key(counts@, t),
        decreases e.len() - i,
    {
        let ghost list = strs(e[i as int].1@);
        let mut j: usize = 0;
        while j < meta.tags[i].1.len()
            invariant
                e == meta.tags@,
                total_tags(e) <= usize::MAX,
                i < e.len(),
                list == strs(e[i as int].1@),
                j <= list.len(),
                keys_unique(counts@),
                forall|m: int|
                    0 <= m < counts@.len() ==> #[trigger] counts@[m].1 == tag_count(e.take(i as int), counts@[m].0@)
                        + occurrences(list.take(j as int), counts@[m].0@) && counts@[m].1 > 0,
                forall|t: Seq<char>|
                    tag_count(e.take(i as int), t) + occurrences(list.take(j as int), t) > 0 ==> has_key(counts@, t),
            decreases list.len() - j,
        {
            let name = &meta.tags[i].1[j];
            let ghost x = name@;
            let ghost old_counts = counts@;
            proof {
                assert(list.take(j + 1).drop_last() =~= list.take(j as int));
                assert(list.take(j + 1).last() == x);
                assert(e.take(i + 1).drop_last() =~= e.take(i as int));
                assert(list.take(j + 1) =~= list.take(j + 1));
                lemma_occurrences_le(list.take(j + 1), x);
                lemma_tag_count_le(e.take(i as int), x);
                lemma_total_tags_prefix(e, i + 1);
                assert(total_tags(e.take(i + 1)) == total_tags(e.take(i as int)) + list.len());
            }
            match find_key(&counts, name.as_str()) {
                Some(m) => {
                    let c = counts[m].1;
                    let key = counts[m].0.clone();
                    counts.set(m, (key, c + 1));
                    proof {
                        lemma_frame_set(old_counts, counts@, m as int);
                        assert forall|q: int| 0 <= q < counts@.len() implies #[trigger] counts@[q].1 == tag_count(e.take(i as int), counts@[q].0@)
                            + occurrences(list.take(j + 1), counts@[q].0@) && counts@[q].1 > 0 by {
                            if q != m {
                                assert(counts@[q] == old_counts[q]);
                                assert(old_counts[q].0@ != old_counts[m as int].0@);
                            }
                        }
                        assert forall|t: Seq<char>|
                            tag_count(e.take(i as int), t) + occurrences(list.take(j + 1), t) > 0 implies has_key(counts@, t) by {
                            if t != x {
                                assert(has_key(old_counts, t));
                            }
                        }
                    }
                },
                None => {
                    let entry = (name.clone(), 1usize);
                    counts.push(entry);
                    proof {
                        lemma_frame_push(old_counts, entry);
                        assert(tag_count(e.take(i as int), x) + occurrences(list.take(j as int), x) == 0);
                        assert forall|q: int| 0 <= q < counts@.len() implies #[trigger] counts@[q].1 == tag_count(e.take(i as int), counts@[q].0@)
                            + occurrences(list.take(j + 1), counts@[q].0@) && counts@[q].1 > 0 by {
                            if q < old_counts.len() {
                                assert(counts@[q] == old_counts[q]);
                            }
                        }
                        assert forall|t: Seq<char>|
                            tag_count(e.take(i as int), t) + occurrences(list.take(j + 1), t) > 0 implies has_key(counts@, t) by {
                            if t != x {
                                assert(has_key(old_counts, t));
                            }
                        }
                    }
                },
            }
            j = j + 1;
        }
        proof {
            assert(list.take(list.len() as int) =~= list);
            assert(e.take(i + 1).drop_last() =~= e.take(i as int));
            assert(e.take(i + 1).last() == e[i as int]);
        }
        i = i + 1;
    }
    assert(e.take(e.len() as int) =~= e);
    let mut ranked: Vec<(String, usize)> = Vec::new();
    let mut m: usize = 0;
    while m < counts.len()
        invariant
            m <= counts.len(),
            keys_unique(counts@),
            forall|a: int, b: int| 0 <= a < b < ranked@.len() ==> count_ranks_before(#[trigger] ranked@[a], #[trigger] ranked@[b]),
            forall|q: int| 0 <= q < ranked@.len() ==> exists|p: int| 0 <= p < m && #[trigger] ranked@[q] == counts@[p],
            forall|p: int| 0 <= p < m ==> has_key(ranked@, #[trigger] counts@[p].0@),
            ranked@.len() == m,
        decreases counts.len() - m,
    {
        let entry = (counts[m].0.clone(), counts[m].1);
        proof {
            if has_key(ranked@, entry.0@) {
                let q = choose|q: int| 0 <= q < ranked@.len() && #[trigger] ranked@[q].0@ == entry.0@;
                let p = choose|p: int| 0 <= p < m && #[trigger] ranked@[q] == counts@[p];
                assert(counts@[p].0@ == counts@[m as int].0@);
            }
        }
        let ghost old_ranked = ranked@;
        insert_ranked(&mut ranked, entry);
        proof {
            let k = choose|k: int| 0 <= k <= old_ranked.len() && ranked@ == old_ranked.insert(k, entry);
            assert(entry == counts@[m as int]);
            assert forall|q: int| 0 <= q < ranked@.len() implies exists|p: int| 0 <= p < m + 1 && #[trigger] ranked@[q] == counts@[p] by {
                if q < k {
                    assert(ranked@[q] == old_ranked[q]);
                    let p = choose|p: int| 0 <= p < m && #[trigger] old_ranked[q] == counts@[p];
                } else if q == k {
                    assert(ranked@[q] == counts@[m as int]);
                } else {
                    assert(ranked@[q] == old_ranked[q - 1]);
                    let p = choose|p: int| 0 <= p < m && #[trigger] old_ranked[q - 1] == counts@[p];
                }
            }
            assert forall|p: int| 0 <= p < m + 1 implies has_key(ranked@, #[trigger] counts@[p].0@) by {
                if p == m {
                    assert(ranked@[k].0@ == counts@[p].0@);
                } else {
                    let q = choose|q: int| 0 <= q < old_ranked.len() && #[trigger] old_ranked[q].0@ == counts@[p].0@;
                    if q < k {
                        assert(ranked@[q] == old_ranked[q]);
                    } else {
                        assert(ranked@[q + 1] == old_ranked[q]);
                    }
                }
            }
        }
        m = m + 1;
    }
    proof {
        assert forall|a: int, b: int| 0 <= a < ranked@.len() && 0 <= b < ranked@.len() && a != b implies ranked@[a].0@ != ranked@[b].0@ by {
            if a < b {
                assert(count_ranks_before(ranked@[a], ranked@[b]));
            } else {
                assert(count_ranks_before(ranked@[b], ranked@[a]));
            }
        }
        assert forall|q: int| 0 <= q < ranked@.len() implies #[trigger] ranked@[q].1 == tag_count(e, ranked@[q].0@) && ranked@[q].1 > 0 by {
            let p = choose|p: int| 0 <= p < counts@.len() && #[trigger] ranked@[q] == counts@[p];
            assert(counts@[p].1 == tag_count(e, counts@[p].0@));
        }
        assert forall|t: Seq<char>| tag_count(e, t) > 0 implies has_key(ranked@, t) by {
            assert(has_key(counts@, t));
            let p = choose|p: int| 0 <= p < counts@.len() && #[trigger] counts@[p].0@ == t;
            assert(has_key(ranked@, counts@[p].0@));
        }
    }
    ranked
}


// ───────────────────────── laws ─────────────────────────

proof fn lemma_without_lacks(s: Seq<Seq<char>>, t: Seq<char>)
    ensures
        !without(s, t).contains(t),
        forall|x: Seq<char>| x != t ==> (without(s, t).contains(x) <==> s.contains(x)),
    decreases s.len(),
{
    if s.len() > 0 {
        lemma_without_lacks(s.drop_last(), t);
        let w = without(s.drop_last(), t);
        assert forall|x: Seq<char>| x != t implies (without(s, t).contains(x) <==> s.contains(x)) by {
            if s.contains(x) {
                let i = choose|i: int| 0 <= i < s.len() && s[i] == x;
                if i < s.len() - 1 {
                    assert(s.drop_last()[i] == x);
                }
            }
            if s.drop_last().contains(x) {
                let i = choose|i: int| 0 <= i < s.drop_last().len() && s.drop_last()[i] == x;
                assert(s[i] == x);
            }
            if s.last() != t {
                if w.push(s.last()).contains(x) {
                    let i = choose|i: int| 0 <= i < w.push(s.last()).len() && w.push(s.last())[i] == x;
                    if i < w.len() {
                        assert(w.contains(x));
                    }
                }
                if w.contains(x) {
                    let i = choose|i: int| 0 <= i < w.len() && w[i] == x;
                    assert(w.push(s.last())[i] == x);
                }
                if x == s.last() {
                    assert(w.push(s.last())[w.len() as int] == x);
                }
            }
        }
        if s.last() != t {
            if w.push(s.last()).contains(t) {
                let i = choose|i: int| 0 <= i < w.push(s.last()).len() && w.push(s.last())[i] == t;
                if i < w.len() {
                    assert(w.contains(t));
                }
            }
        }
    }
}

/// After a tag is added to a session, the session's tags include it.
pub proof fn law_added_tag_is_listed(before: OcsMeta, after: OcsMeta, sid: Seq<char>, tag: Seq<char>)
    requires
        tag_added(before, after, sid, tag),
    ensures
        after.tags_of(sid).contains(tag),
{
    assert(after.tag_map().contains_key(sid));
    let l = before.tags_of(sid);
    if !l.contains(tag) {
        assert(l.push(tag)[l.len() as int] == tag);
    }
}

/// A tag added to a session that did not have it leaves the session's tags
/// sorted and free of repeats.
pub proof fn law_added_tag_list_sorted(before: OcsMeta, after: OcsMeta, sid: Seq<char>, tag: Seq<char>)
    requires
        tag_added(before, after, sid, tag),
        !before.tags_of(sid).contains(tag),
    ensures
        strictly_sorted(after.tags_of(sid)),
{
    assert(after.tag_map().contains_key(sid));
}

/// Adding a tag that a session already has changes nothing; in particular
/// adding the same tag twice is the same as adding it once.
pub proof fn law_add_tag_idempotent(before: OcsMeta, after: OcsMeta, sid: Seq<char>, tag: Seq<char>)
    requires
        tag_added(before, after, sid, tag),
        before.tags_of(sid).contains(tag),
    ensures
        after.tag_map() == before.tag_map(),
{
    assert(before.tag_map().contains_key(sid)) by {
        if !before.tag_map().contains_key(sid) {
            assert(before.tags_of(sid) =~= Seq::<Seq<char>>::empty());
        }
    }
    assert(before.tag_map().dom().insert(sid) =~= before.tag_map().dom());
    assert(after.tag_map() =~= before.tag_map());
}

/// Adding a tag to one session leaves the tags of every other session as
/// they were.
pub proof fn law_add_tag_other_sessions(
    before: OcsMeta,
    after: OcsMeta,
    sid: Seq<char>,
    tag: Seq<char>,
    other: Seq<char>,
)
    requires
        tag_added(before, after, sid, tag),
        other != sid,
    ensures
        after.tags_of(other) == before.tags_of(other),
{
}

/// After a tag is removed from a session, the session's tags no longer
/// include it, and every other tag it had is still there.
pub proof fn law_removed_tag_is_gone(
    before: OcsMeta,
    after: OcsMeta,
    sid: Seq<char>,
    tag: Seq<char>,
    found: bool,
)
    requires
        tag_removed(before, after, sid, tag, found),
    ensures
        !after.tags_of(sid).contains(tag),
        forall|x: Seq<char>| x != tag ==> (after.tags_of(sid).contains(x) <==> before.tags_of(sid).contains(x)),
{
    let l = before.tags_of(sid);
    lemma_without_lacks(l, tag);
    if !found {
        assert(after.tags_of(sid) == l);
    } else if without(l, tag).len() == 0 {
        assert(!after.tag_map().contains_key(sid));
        assert(after.tags_of(sid) =~= Seq::<Seq<char>>::empty());
        assert forall|x: Seq<char>| x != tag implies !l.contains(x) by {
            if l.contains(x) {
                assert(without(l, tag).contains(x));
            }
        }
    }
}

/// A note written to a session is the note read back; an empty note
/// removes the session's note.
pub proof fn law_note_read_after_write(before: OcsMeta, after: OcsMeta, sid: Seq<char>, text: Seq<char>)
    requires
        note_set(before, after, sid, text),
    ensures
        text.len() > 0 ==> after.note_map().contains_key(sid) && after.note_map()[sid] == text,
        text.len() == 0 ==> !after.note_map().contains_key(sid),
        forall|k: Seq<char>| k != sid ==> after.note_map().contains_key(k) == before.note_map().contains_key(k),
{
}

/// After a note is removed the session has none, and removing it again
/// reports that there was none.
pub proof fn law_remove_note_twice(
    m0: OcsMeta,
    m1: OcsMeta,
    m2: OcsMeta,
    sid: Seq<char>,
    first: bool,
    second: bool,
)
    requires
        note_removed(m0, m1, sid, first),
        note_removed(m1, m2, sid, second),
    ensures
        !m2.note_map().contains_key(sid),
        !second,
        m2.note_map() == m1.note_map(),
{
    assert(m1.note_map().remove(sid) =~= m1.note_map());
}

} // verus!
