//! Keyword-triggered context loading: the trigger index built from the
//! `triggers:` field of markdown frontmatter, the selection of the files
//! that a user message triggers, and the text that loads them.

use vstd::prelude::*;
use crate::heartbeat::task_views;
use crate::paths::{join, join_path};
use crate::text::{
    chars_of, contains_seq, has_substring, push_str, lines, non_empty, range_starts_with, skip_left, skip_right, spec_to_lowercase,
    split_on, split_ranges, string_of_range, strip_both, strip_left, strip_prefix, strip_range,
    strip_right, to_lowercase, trim, trim_range, words, CharClass,
};

verus! {

/// The ranges of the words of `v`, in order.
fn word_ranges(v: &Vec<char>) -> (r: Vec<(usize, usize)>)
    ensures
        r@.len() == words(v@).len(),
        forall|k: int|
            0 <= k < r@.len() ==> (#[trigger] r@[k]).0 <= r@[k].1 <= v@.len() && v@.subrange(
                r@[k].0 as int,
                r@[k].1 as int,
            ) == words(v@)[k],
{
    let pieces = split_ranges(v, 0, v.len(), CharClass::Whitespace);
    let ghost ps = split_on(v@, CharClass::Whitespace);
    assert(v@.subrange(0, v@.len() as int) =~= v@);
    let mut r: Vec<(usize, usize)> = Vec::new();
    let mut k: usize = 0;
    while k < pieces.len()
        invariant
            ps == split_on(v@, CharClass::Whitespace),
            pieces@.len() == ps.len(),
            forall|j: int|
                0 <= j < pieces@.len() ==> 0 <= (#[trigger] pieces@[j]).0 <= pieces@[j].1
                    <= v@.len() && v@.subrange(pieces@[j].0 as int, pieces@[j].1 as int)
                    == ps[j],
            0 <= k <= pieces@.len(),
            r@.len() == ps.take(k as int).filter_map(|w: Seq<char>| non_empty(w)).len(),
            forall|j: int|
                0 <= j < r@.len() ==> (#[trigger] r@[j]).0 <= r@[j].1 <= v@.len() && v@.subrange(
                    r@[j].0 as int,
                    r@[j].1 as int,
                ) == ps.take(k as int).filter_map(|w: Seq<char>| non_empty(w))[j],
        decreases pieces@.len() - k,
    {
        let (a, b) = pieces[k];
        proof {
            assert(ps.take(k + 1).drop_last() =~= ps.take(k as int));
            assert(ps.take(k + 1).last() == ps[k as int]);
        }
        if a < b {
            r.push((a, b));
        }
        assert(r@.len() == ps.take(k + 1).filter_map(|w: Seq<char>| non_empty(w)).len());
        k = k + 1;
    }
    assert(ps.take(pieces@.len() as int) =~= ps);
    r
}

/// Whether `v[a..b]` and `w[c..d]` hold the same characters.
fn ranges_equal(v: &Vec<char>, a: usize, b: usize, w: &Vec<char>, c: usize, d: usize) -> (r: bool)
    requires
        a <= b <= v@.len(),
        c <= d <= w@.len(),
    ensures
        r == (v@.subrange(a as int, b as int) == w@.subrange(c as int, d as int)),
{
    if b - a != d - c {
        assert(v@.subrange(a as int, b as int).len() != w@.subrange(c as int, d as int).len());
        return false;
    }
    let mut k: usize = 0;
    while k < b - a
        invariant
            a <= b <= v@.len(),
            c <= d <= w@.len(),
            b - a == d - c,
            0 <= k <= b - a,
            forall|j: int|
                0 <= j < k ==> #[trigger] v@.subrange(a as int, b as int)[j] == w@.subrange(
                    c as int,
                    d as int,
                )[j],
        decreases b - a - k,
    {
        if v[a + k] != w[c + k] {
            assert(v@.subrange(a as int, b as int)[k as int] != w@.subrange(c as int, d as int)[k as int]);
            return false;
        }
        k = k + 1;
    }
    assert(v@.subrange(a as int, b as int) =~= w@.subrange(c as int, d as int));
    true
}

/// How many of the words `new_words` (counted with repetition) occur among
/// `cached_words`.
pub open spec fn overlap(new_words: Seq<Seq<char>>, cached_words: Seq<Seq<char>>) -> nat
    decreases new_words.len(),
{
    if new_words.len() == 0 {
        0
    } else {
        overlap(new_words.drop_last(), cached_words) + if cached_words.contains(
            new_words.last(),
        ) {
            1nat
        } else {
            0nat
        }
    }
}

/// Two messages are similar when both have words and at least half of the
/// new message's words occur in the cached one.
pub open spec fn similar(cached_query: Seq<char>, new_query: Seq<char>) -> bool {
    let cw = words(cached_query);
    let nw = words(new_query);
    nw.len() > 0 && cw.len() > 0 && 2 * overlap(nw, cw) >= nw.len()
}

/// Whether two messages are similar enough to reuse cached semantic search
/// results: at least 50% of the new query's words appear in the cached one.
pub fn messages_similar(cached_query: &str, new_query: &str) -> (r: bool)
    ensures
        r == similar(cached_query@, new_query@),
{
    let cv = chars_of(cached_query);
    let nv = chars_of(new_query);
    let cw = word_ranges(&cv);
    let nw = word_ranges(&nv);
    if nw.len() == 0 || cw.len() == 0 {
        return false;
    }
    let ghost cws = words(cv@);
    let ghost nws = words(nv@);
    let mut count: usize = 0;
    let mut i: usize = 0;
    while i < nw.len()
        invariant
            cws == words(cv@),
            nws == words(nv@),
            cw@.len() == cws.len(),
            nw@.len() == nws.len(),
            forall|k: int|
                0 <= k < cw@.len() ==> (#[trigger] cw@[k]).0 <= cw@[k].1 <= cv@.len()
                    && cv@.subrange(cw@[k].0 as int, cw@[k].1 as int) == cws[k],
            forall|k: int|
                0 <= k < nw@.len() ==> (#[trigger] nw@[k]).0 <= nw@[k].1 <= nv@.len()
                    && nv@.subrange(nw@[k].0 as int, nw@[k].1 as int) == nws[k],
            0 <= i <= nw@.len(),
            count == overlap(nws.take(i as int), cws),
            count <= i,
        decreases nw@.len() - i,
    {
        let (a, b) = nw[i];
        let mut found = false;
        let mut j: usize = 0;
        while j < cw.len() && !found
            invariant
                0 <= j <= cw@.len(),
                cw@.len() == cws.len(),
                i < nws.len(),
                a <= b <= nv@.len(),
                nv@.subrange(a as int, b as int) == nws[i as int],
                forall|k: int|
                    0 <= k < cw@.len() ==> (#[trigger] cw@[k]).0 <= cw@[k].1 <= cv@.len()
                        && cv@.subrange(cw@[k].0 as int, cw@[k].1 as int) == cws[k],
                found ==> cws.contains(nws[i as int]),
                !found ==> forall|k: int| 0 <= k < j ==> cws[k] != nws[i as int],
            decreases cw@.len() - j,
        {
            let (c, d) = cw[j];
            if ranges_equal(&nv, a, b, &cv, c, d) {
                found = true;
                assert(cws[j as int] == nws[i as int]);
            }
            j = j + 1;
        }
        proof {
            assert(nws.take(i + 1).drop_last() =~= nws.take(i as int));
            assert(nws.take(i + 1).last() == nws[i as int]);
            if !found {
                assert(!cws.contains(nws[i as int]));
            }
        }
        if found {
            count = count + 1;
        }
        i = i + 1;
    }
    assert(nws.take(nw@.len() as int) =~= nws);
    count >= nw.len() - count
}


// ---------------------------------------------------------------------------
// Frontmatter triggers
// ---------------------------------------------------------------------------

pub const FRONTMATTER_FENCE: &'static str = "---";

pub const TRIGGERS_KEY: &'static str = "triggers:";

/// One keyword of a trigger list: trimmed, stripped of double and then
/// single quotes, lowercased.
pub open spec fn trigger_keyword(piece: Seq<char>) -> Seq<char> {
    spec_to_lowercase(
        strip_both(strip_both(trim(piece), CharClass::Exactly('"')), CharClass::Exactly('\'')),
    )
}

/// The keywords of a `triggers:` value `[kw1, kw2, ...]`: the trimmed
/// value without its leading `[`s and trailing `]`s, split at commas; empty
/// keywords are dropped.
pub open spec fn trigger_list(value: Seq<char>) -> Seq<Seq<char>> {
    let inner = strip_right(
        strip_left(trim(value), CharClass::Exactly('[')),
        CharClass::Exactly(']'),
    );
    split_on(inner, CharClass::Exactly(',')).filter_map(
        |p: Seq<char>| non_empty(trigger_keyword(p)),
    )
}

/// The triggers found from line `j` on, inside the frontmatter: the scan
/// ends at the closing fence, or at the first `triggers:` line.
pub open spec fn scan_frontmatter(ls: Seq<Seq<char>>, j: int) -> Seq<Seq<char>>
    decreases ls.len() - j,
{
    if j < 0 || j >= ls.len() {
        Seq::<Seq<char>>::empty()
    } else {
        let t = trim(ls[j]);
        if t == FRONTMATTER_FENCE@ {
            Seq::<Seq<char>>::empty()
        } else {
            match strip_prefix(t, TRIGGERS_KEY@) {
                Some(value) => trigger_list(value),
                None => scan_frontmatter(ls, j + 1),
            }
        }
    }
}

/// The trigger keywords of a markdown file: the first line must be the
/// fence `---`, and the `triggers:` line must come before the closing one.
pub open spec fn frontmatter_triggers(content: Seq<char>) -> Seq<Seq<char>> {
    let ls = lines(content);
    if ls.len() > 0 && trim(ls[0]) == FRONTMATTER_FENCE@ {
        scan_frontmatter(ls, 1)
    } else {
        Seq::<Seq<char>>::empty()
    }
}

/// Whether the frontmatter scan is decided once line `index` (from 0) has
/// been read: a first line that is not the fence ends it, and so do the
/// closing fence and the `triggers:` line.  Lines after it need not be read.
pub open spec fn frontmatter_scan_ends(index: nat, line: Seq<char>) -> bool {
    if index == 0 {
        trim(line) != FRONTMATTER_FENCE@
    } else {
        trim(line) == FRONTMATTER_FENCE@ || strip_prefix(trim(line), TRIGGERS_KEY@) is Some
    }
}

/// Whether a file's frontmatter needs no more lines after line `index`.
pub fn frontmatter_read_ends(index: usize, line: &str) -> (r: bool)
    ensures
        r == frontmatter_scan_ends(index as nat, line@),
{
    let v = chars_of(line);
    let fence = chars_of(FRONTMATTER_FENCE);
    let (a, b) = trim_range(&v, 0, v.len());
    proof {
        assert(v@.subrange(0, v@.len() as int) =~= line@);
    }
    let ghost t = v@.subrange(a as int, b as int);
    let is_fence = b - a == fence.len() && range_starts_with(&v, a, b, &fence);
    proof {
        if b - a == fence@.len() {
            assert(t =~= v@.subrange(a as int, a + fence@.len()));
        }
    }
    if index == 0 {
        return !is_fence;
    }
    if is_fence {
        return true;
    }
    let key = chars_of(TRIGGERS_KEY);
    let r = range_starts_with(&v, a, b, &key);
    proof {
        if key@.len() <= t.len() {
            assert(t.take(key@.len() as int) =~= v@.subrange(a as int, a + key@.len()));
        }
    }
    r
}

/// The views of a list of strings.
pub open spec fn string_views(v: Seq<String>) -> Seq<Seq<char>> {
    v.map_values(|s: String| s@)
}

/// The keywords of the trigger list `v[lo..hi]`.
fn parse_trigger_list(v: &Vec<char>, lo: usize, hi: usize) -> (r: Vec<String>)
    requires
        lo <= hi <= v@.len(),
    ensures
        string_views(r@) == trigger_list(v@.subrange(lo as int, hi as int)),
{
    let (a, b) = trim_range(v, lo, hi);
    let a2 = skip_left(v, a, b, CharClass::Exactly('['));
    let b2 = skip_right(v, a2, b, CharClass::Exactly(']'));
    let pieces = split_ranges(v, a2, b2, CharClass::Exactly(','));
    let ghost ps = split_on(v@.subrange(a2 as int, b2 as int), CharClass::Exactly(','));
    let mut r: Vec<String> = Vec::new();
    let mut k: usize = 0;
    while k < pieces.len()
        invariant
            a2 <= b2 <= v@.len(),
            ps == split_on(v@.subrange(a2 as int, b2 as int), CharClass::Exactly(',')),
            pieces@.len() == ps.len(),
            forall|j: int|
                0 <= j < pieces@.len() ==> a2 <= (#[trigger] pieces@[j]).0 <= pieces@[j].1
                    <= b2 && v@.subrange(pieces@[j].0 as int, pieces@[j].1 as int) == ps[j],
            0 <= k <= pieces@.len(),
            string_views(r@) == ps.take(k as int).filter_map(
                |p: Seq<char>| non_empty(trigger_keyword(p)),
            ),
        decreases pieces@.len() - k,
    {
        let (pa, pb) = pieces[k];
        let (ta, tb) = trim_range(v, pa, pb);
        let (qa, qb) = strip_range(v, ta, tb, CharClass::Exactly('"'));
        let (sa, sb) = strip_range(v, qa, qb, CharClass::Exactly('\''));
        let raw = string_of_range(v, sa, sb);
        let kw = to_lowercase(raw.as_str());
        proof {
            assert(ps.take(k + 1).drop_last() =~= ps.take(k as int));
            assert(ps.take(k + 1).last() == ps[k as int]);
            assert(kw@ == trigger_keyword(ps[k as int]));
        }
        if !kw.as_str().is_empty() {
            r.push(kw);
        }
        assert(string_views(r@) =~= ps.take(k + 1).filter_map(
            |p: Seq<char>| non_empty(trigger_keyword(p)),
        ));
        k = k + 1;
    }
    proof {
        assert(ps.take(pieces@.len() as int) =~= ps);
        let t = v@.subrange(a as int, b as int);
        assert(strip_right(strip_left(t, CharClass::Exactly('[')), CharClass::Exactly(']'))
            == v@.subrange(a2 as int, b2 as int));
    }
    r
}

/// Parses `triggers: [kw1, kw2, ...]` from the YAML frontmatter of a
/// markdown file and returns the lowercased keywords.  `content` is the file
/// as far as it could be read.
pub fn parse_frontmatter_triggers(content: &str) -> (r: Vec<String>)
    ensures
        string_views(r@) == frontmatter_triggers(content@),
{
    let v = chars_of(content);
    let fence = chars_of(FRONTMATTER_FENCE);
    let key = chars_of(TRIGGERS_KEY);
    let ranges = split_ranges(&v, 0, v.len(), CharClass::Exactly('\n'));
    let ghost ls = lines(content@);
    assert(v@.subrange(0, v@.len() as int) =~= content@);
    proof {
        crate::text::lemma_split_on_nonempty(content@, CharClass::Exactly('\n'));
    }
    let (f0, f1) = ranges[0];
    let (a0, b0) = trim_range(&v, f0, f1);
    if !(b0 - a0 == fence.len() && range_starts_with(&v, a0, b0, &fence)) {
        proof {
            if b0 - a0 == fence@.len() {
                assert(v@.subrange(a0 as int, b0 as int) =~= v@.subrange(a0 as int, a0 + fence@.len()));
            }
        }
        return Vec::new();
    }
    proof {
        assert(v@.subrange(a0 as int, b0 as int) =~= v@.subrange(a0 as int, a0 + fence@.len()));
    }
    let mut j: usize = 1;
    while j < ranges.len()
        invariant
            v@ == content@,
            fence@ == FRONTMATTER_FENCE@,
            key@ == TRIGGERS_KEY@,
            ls == lines(content@),
            ranges@.len() == ls.len(),
            forall|i: int|
                0 <= i < ranges@.len() ==> 0 <= (#[trigger] ranges@[i]).0 <= ranges@[i].1
                    <= v@.len() && v@.subrange(ranges@[i].0 as int, ranges@[i].1 as int)
                    == ls[i],
            1 <= j <= ranges@.len(),
            frontmatter_triggers(content@) == scan_frontmatter(ls, j as int),
        decreases ranges@.len() - j,
    {
        let (lo, hi) = ranges[j];
        let (a, b) = trim_range(&v, lo, hi);
        let ghost t = v@.subrange(a as int, b as int);
        if b - a == fence.len() && range_starts_with(&v, a, b, &fence) {
            assert(t =~= fence@);
            return Vec::new();
        }
        proof {
            if b - a == fence@.len() {
                assert(t =~= v@.subrange(a as int, a + fence@.len()));
            }
        }
        if range_starts_with(&v, a, b, &key) {
            proof {
                assert(t.take(key@.len() as int) =~= v@.subrange(a as int, a + key@.len()));
                assert(t.skip(key@.len() as int) =~= v@.subrange(a + key@.len(), b as int));
            }
            return parse_trigger_list(&v, a + key.len(), b);
        }
        proof {
            if key@.len() <= t.len() {
                assert(t.take(key@.len() as int) =~= v@.subrange(a as int, a + key@.len()));
            }
        }
        j = j + 1;
    }
    Vec::new()
}


/// What every trigger keyword is: non-empty, and a lowercase mapping.
pub open spec fn is_trigger_keyword(k: Seq<char>) -> bool {
    k.len() > 0 && exists|p: Seq<char>| k == spec_to_lowercase(p)
}

proof fn lemma_trigger_list_keywords(value: Seq<char>)
    ensures
        forall|k: int|
            0 <= k < trigger_list(value).len() ==> is_trigger_keyword(
                #[trigger] trigger_list(value)[k],
            ),
{
    let inner = strip_right(
        strip_left(trim(value), CharClass::Exactly('[')),
        CharClass::Exactly(']'),
    );
    let ps = split_on(inner, CharClass::Exactly(','));
    let f = |p: Seq<char>| non_empty(trigger_keyword(p));
    let t = trigger_list(value);
    assert forall|k: int| 0 <= k < t.len() implies is_trigger_keyword(#[trigger] t[k]) by {
        assert(t.contains(t[k]));
        ps.lemma_filter_map_contains(f, t[k]);
        let q = choose|q: Seq<char>| ps.contains(q) && f(q) == Some(t[k]);
        let raw = strip_both(
            strip_both(trim(q), CharClass::Exactly('"')),
            CharClass::Exactly('\''),
        );
        assert(t[k] == spec_to_lowercase(raw));
    }
}

proof fn lemma_scan_keywords(ls: Seq<Seq<char>>, j: int)
    ensures
        forall|k: int|
            0 <= k < scan_frontmatter(ls, j).len() ==> is_trigger_keyword(
                #[trigger] scan_frontmatter(ls, j)[k],
            ),
    decreases ls.len() - j,
{
    if 0 <= j < ls.len() {
        let t = trim(ls[j]);
        if t != FRONTMATTER_FENCE@ {
            match strip_prefix(t, TRIGGERS_KEY@) {
                Some(value) => {
                    assert(scan_frontmatter(ls, j) == trigger_list(value));
                    lemma_trigger_list_keywords(value);
                },
                None => {
                    assert(scan_frontmatter(ls, j) == scan_frontmatter(ls, j + 1));
                    lemma_scan_keywords(ls, j + 1);
                },
            }
        }
    }
}

/// Every trigger keyword read from a frontmatter is non-empty and
/// lowercased.
pub proof fn lemma_frontmatter_keywords_lowercased(content: Seq<char>)
    ensures
        forall|k: int|
            0 <= k < frontmatter_triggers(content).len() ==> is_trigger_keyword(
                #[trigger] frontmatter_triggers(content)[k],
            ),
{
    lemma_scan_keywords(lines(content), 1);
}

// ---------------------------------------------------------------------------
// Trigger index
// ---------------------------------------------------------------------------

/// Where an indexed file comes from.  Project wikis come before knowledge
/// files.
#[derive(Clone, Copy, PartialEq, Eq, Structural)]
pub enum IndexLayer {
    Project,
    Knowledge,
}

/// The layer names that context sections carry.
pub const LAYER_PROJECT: &'static str = "PROJECT";

pub const LAYER_KNOWLEDGE: &'static str = "KNOWLEDGE";

pub const LAYER_EPISODIC: &'static str = "EPISODIC";

pub const LAYER_CONTEXT: &'static str = "CONTEXT";

impl IndexLayer {
    /// Lower is earlier: 1 for projects, 2 for knowledge.
    pub open spec fn priority_of(self) -> u8 {
        match self {
            IndexLayer::Project => 1,
            IndexLayer::Knowledge => 2,
        }
    }

    pub open spec fn name_of(self) -> Seq<char> {
        match self {
            IndexLayer::Project => LAYER_PROJECT@,
            IndexLayer::Knowledge => LAYER_KNOWLEDGE@,
        }
    }

    pub fn priority(&self) -> (r: u8)
        ensures
            r == self.priority_of(),
    {
        match self {
            IndexLayer::Project => 1,
            IndexLayer::Knowledge => 2,
        }
    }

    pub fn name(&self) -> (r: &'static str)
        ensures
            r@ == self.name_of(),
    {
        match self {
            IndexLayer::Project => LAYER_PROJECT,
            IndexLayer::Knowledge => LAYER_KNOWLEDGE,
        }
    }
}

/// A trigger entry: keywords mapped to a file.
#[derive(Clone)]
pub struct TriggerEntry {
    pub keywords: Vec<String>,
    pub file_path: String,
    pub layer: IndexLayer,
}

/// What the index knows of an entry.
pub open spec fn entry_view(e: TriggerEntry) -> (Seq<Seq<char>>, Seq<char>, IndexLayer) {
    (string_views(e.keywords@), e.file_path@, e.layer)
}

/// A directory under `projects/`, with the triggers of its `wiki.md`
/// (`None` when there is no `wiki.md`).
pub struct ProjectDir {
    pub name: String,
    pub is_dir: bool,
    pub wiki_path: String,
    pub wiki_triggers: Option<Vec<String>>,
}

/// A file under `knowledge/wiki/`, with the triggers of its frontmatter.
pub struct KnowledgeFile {
    pub file_name: String,
    pub path: String,
    pub triggers: Vec<String>,
}

/// Project directories whose name starts with `_`, and `.`, are not indexed.
pub open spec fn skipped_project_name(name: Seq<char>) -> bool {
    (name.len() > 0 && name[0] == '_') || name == "."@
}

/// A file name whose extension (as `Path::extension` finds it) is `md`:
/// it ends with `.md` and something comes before the dot.
pub open spec fn has_md_extension(name: Seq<char>) -> bool {
    name.len() >= 4 && name.skip(name.len() - 3) == ".md"@
}

/// The entry that a project directory contributes.
pub open spec fn project_entry(p: ProjectDir) -> Option<(Seq<Seq<char>>, Seq<char>, IndexLayer)> {
    if p.is_dir && !skipped_project_name(p.name@) {
        match p.wiki_triggers {
            Some(t) => if t@.len() > 0 {
                Some((string_views(t@), p.wiki_path@, IndexLayer::Project))
            } else {
                None
            },
            None => None,
        }
    } else {
        None
    }
}

/// The entry that a knowledge file contributes.
pub open spec fn knowledge_entry(k: KnowledgeFile) -> Option<
    (Seq<Seq<char>>, Seq<char>, IndexLayer),
> {
    if has_md_extension(k.file_name@) && k.triggers@.len() > 0 {
        Some((string_views(k.triggers@), k.path@, IndexLayer::Knowledge))
    } else {
        None
    }
}

/// The trigger index: project wikis in directory order, then knowledge files.
pub open spec fn trigger_index(projects: Seq<ProjectDir>, knowledge: Seq<KnowledgeFile>) -> Seq<
    (Seq<Seq<char>>, Seq<char>, IndexLayer),
> {
    projects.filter_map(|p: ProjectDir| project_entry(p)) + knowledge.filter_map(
        |k: KnowledgeFile| knowledge_entry(k),
    )
}

/// A copy of a list of strings.
pub fn clone_strings(v: &Vec<String>) -> (r: Vec<String>)
    ensures
        string_views(r@) == string_views(v@),
{
    let mut r: Vec<String> = Vec::new();
    let mut i: usize = 0;
    while i < v.len()
        invariant
            0 <= i <= v@.len(),
            string_views(r@) == string_views(v@).take(i as int),
        decreases v@.len() - i,
    {
        let c = crate::text::string_of_str(v[i].as_str());
        let ghost before = r@;
        r.push(c);
        proof {
            assert(r@ == before.push(c));
            assert(string_views(r@) =~= string_views(before).push(c@));
            assert(string_views(v@).take(i + 1) =~= string_views(v@).take(i as int).push(v@[i as int]@));
        }
        i = i + 1;
    }
    assert(string_views(v@).take(v@.len() as int) =~= string_views(v@));
    r
}

/// Whether a project directory may be indexed by its name.
pub fn is_skipped_project_name(name: &str) -> (r: bool)
    ensures
        r == skipped_project_name(name@),
{
    let v = chars_of(name);
    if v.len() > 0 && v[0] == '_' {
        return true;
    }
    let r = v.len() == 1 && v[0] == '.';
    proof {
        reveal_strlit(".");
        if v@.len() == 1 && v@[0] == '.' {
            assert(name@ =~= "."@);
        }
    }
    r
}

/// Whether a file name has the extension `md`.
pub fn is_md_file_name(name: &str) -> (r: bool)
    ensures
        r == has_md_extension(name@),
{
    let v = chars_of(name);
    let n = v.len();
    if n < 4 {
        return false;
    }
    let r = v[n - 3] == '.' && v[n - 2] == 'm' && v[n - 1] == 'd';
    proof {
        reveal_strlit(".md");
        let t = name@.skip(n - 3);
        assert(t.len() == 3);
        assert(t[0] == v@[n - 3] && t[1] == v@[n - 2] && t[2] == v@[n - 1]);
        if r {
            assert(t =~= ".md"@);
        }
        if t == ".md"@ {
            assert(".md"@[0] == '.' && ".md"@[1] == 'm' && ".md"@[2] == 'd');
        }
    }
    r
}

/// Builds the keyword trigger index from the scanned project directories
/// and knowledge files.
pub fn build_trigger_index(projects: &Vec<ProjectDir>, knowledge: &Vec<KnowledgeFile>) -> (r: Vec<
    TriggerEntry,
>)
    ensures
        r@.map_values(|e: TriggerEntry| entry_view(e)) == trigger_index(projects@, knowledge@),
{
    let mut r: Vec<TriggerEntry> = Vec::new();
    let mut i: usize = 0;
    while i < projects.len()
        invariant
            0 <= i <= projects@.len(),
            r@.map_values(|e: TriggerEntry| entry_view(e)) == projects@.take(i as int).filter_map(
                |p: ProjectDir| project_entry(p),
            ),
        decreases projects@.len() - i,
    {
        let p = &projects[i];
        proof {
            assert(projects@.take(i + 1).drop_last() =~= projects@.take(i as int));
            assert(projects@.take(i + 1).last() == projects@[i as int]);
        }
        if p.is_dir && !is_skipped_project_name(p.name.as_str()) {
            match &p.wiki_triggers {
                Some(t) => {
                    if t.len() > 0 {
                        let e = TriggerEntry {
                            keywords: clone_strings(t),
                            file_path: crate::text::string_of_str(p.wiki_path.as_str()),
                            layer: IndexLayer::Project,
                        };
                        r.push(e);
                    }
                },
                None => {},
            }
        }
        assert(r@.map_values(|e: TriggerEntry| entry_view(e)) =~= projects@.take(i + 1).filter_map(
            |p: ProjectDir| project_entry(p),
        ));
        i = i + 1;
    }
    assert(projects@.take(projects@.len() as int) =~= projects@);
    let ghost head = r@.map_values(|e: TriggerEntry| entry_view(e));
    let mut j: usize = 0;
    while j < knowledge.len()
        invariant
            0 <= j <= knowledge@.len(),
            head == projects@.filter_map(|p: ProjectDir| project_entry(p)),
            r@.map_values(|e: TriggerEntry| entry_view(e)) == head + knowledge@.take(
                j as int,
            ).filter_map(|k: KnowledgeFile| knowledge_entry(k)),
        decreases knowledge@.len() - j,
    {
        let k = &knowledge[j];
        proof {
            assert(knowledge@.take(j + 1).drop_last() =~= knowledge@.take(j as int));
            assert(knowledge@.take(j + 1).last() == knowledge@[j as int]);
        }
        let ghost prev = r@.map_values(|e: TriggerEntry| entry_view(e));
        proof {
            assert(knowledge@.take(j + 1).filter_map(|k: KnowledgeFile| knowledge_entry(k)) =~= (
            match knowledge_entry(knowledge@[j as int]) {
                Some(x) => knowledge@.take(j as int).filter_map(
                    |k: KnowledgeFile| knowledge_entry(k),
                ) + seq![x],
                None => knowledge@.take(j as int).filter_map(|k: KnowledgeFile| knowledge_entry(k)),
            }));
        }
        if is_md_file_name(k.file_name.as_str()) && k.triggers.len() > 0 {
            let e = TriggerEntry {
                keywords: clone_strings(&k.triggers),
                file_path: crate::text::string_of_str(k.path.as_str()),
                layer: IndexLayer::Knowledge,
            };
            let ghost x = entry_view(e);
            r.push(e);
            proof {
                assert(r@.map_values(|e: TriggerEntry| entry_view(e)) =~= prev.push(x));
                assert(knowledge_entry(knowledge@[j as int]) == Some(x));
            }
        }
        assert(r@.map_values(|e: TriggerEntry| entry_view(e)) =~= head + knowledge@.take(
            j + 1,
        ).filter_map(|k: KnowledgeFile| knowledge_entry(k)));
        j = j + 1;
    }
    assert(knowledge@.take(knowledge@.len() as int) =~= knowledge@);
    r
}


// ---------------------------------------------------------------------------
// Selecting the triggered files
// ---------------------------------------------------------------------------

/// Maximum number of files loaded per request.
pub const TRIGGER_MAX_FILES: usize = 3;

/// Maximum characters included from a single triggered file.
pub const TRIGGER_FILE_MAX_CHARS: usize = 3000;

/// Cache lifetime of the trigger index, in seconds.
pub const INDEX_CACHE_TTL_SECS: u64 = 60;

/// Cache lifetime of semantic search results, in seconds.
pub const SEMANTIC_CACHE_TTL_SECS: u64 = 300;

/// An entry fires when one of its keywords occurs in the (lowercased)
/// message.
pub open spec fn entry_fires(keywords: Seq<Seq<char>>, message: Seq<char>) -> bool {
    exists|k: int| 0 <= k < keywords.len() && has_substring(message, #[trigger] keywords[k])
}

/// The positions below `n` of the entries of one layer that fire, in order.
pub open spec fn firing_positions(
    index: Seq<TriggerEntry>,
    message: Seq<char>,
    layer: IndexLayer,
    n: nat,
) -> Seq<int>
    decreases n,
{
    if n == 0 {
        Seq::<int>::empty()
    } else {
        let prev = firing_positions(index, message, layer, (n - 1) as nat);
        let i = n - 1;
        if index[i].layer == layer && entry_fires(string_views(index[i].keywords@), message) {
            prev.push(i)
        } else {
            prev
        }
    }
}

/// At most `n` leading elements of `s`.
pub open spec fn first_n<A>(s: Seq<A>, n: nat) -> Seq<A> {
    if s.len() <= n {
        s
    } else {
        s.take(n as int)
    }
}

/// The positions of the entries that a message triggers: the firing entries
/// ordered by priority (projects, then knowledge, each in index order), at
/// most `TRIGGER_MAX_FILES` of them.
pub open spec fn triggered_positions(index: Seq<TriggerEntry>, message: Seq<char>) -> Seq<int> {
    first_n(
        firing_positions(index, message, IndexLayer::Project, index.len())
            + firing_positions(index, message, IndexLayer::Knowledge, index.len()),
        TRIGGER_MAX_FILES as nat,
    )
}

/// Whether one of the keywords occurs in the message.
pub fn entry_fires_on(keywords: &Vec<String>, message: &Vec<char>) -> (r: bool)
    ensures
        r == entry_fires(string_views(keywords@), message@),
{
    let ghost kws = string_views(keywords@);
    let mut i: usize = 0;
    while i < keywords.len()
        invariant
            kws == string_views(keywords@),
            0 <= i <= keywords@.len(),
            forall|k: int| 0 <= k < i ==> !has_substring(message@, #[trigger] kws[k]),
        decreases keywords@.len() - i,
    {
        let kw = chars_of(keywords[i].as_str());
        if contains_seq(message, &kw) {
            assert(kws[i as int] == kw@);
            return true;
        }
        assert(kws[i as int] == kw@);
        i = i + 1;
    }
    false
}

fn push_firing(
    index: &Vec<TriggerEntry>,
    message: &Vec<char>,
    layer: IndexLayer,
    out: &mut Vec<usize>,
)
    ensures
        final(out)@.map_values(|i: usize| i as int) == old(out)@.map_values(|i: usize| i as int)
            + firing_positions(index@, message@, layer, index@.len()),
        final(out)@.len() == old(out)@.len() + firing_positions(
            index@,
            message@,
            layer,
            index@.len(),
        ).len(),
{
    let ghost base = old(out)@.map_values(|i: usize| i as int);
    let mut i: usize = 0;
    while i < index.len()
        invariant
            0 <= i <= index@.len(),
            base == old(out)@.map_values(|i: usize| i as int),
            out@.map_values(|i: usize| i as int) == base + firing_positions(
                index@,
                message@,
                layer,
                i as nat,
            ),
            out@.len() == old(out)@.len() + firing_positions(index@, message@, layer, i as nat).len(),
        decreases index@.len() - i,
    {
        let ghost prev = out@;
        if index[i].layer == layer && entry_fires_on(&index[i].keywords, message) {
            out.push(i);
            assert(out@.map_values(|i: usize| i as int) =~= prev.map_values(|i: usize| i as int).push(
                i as int,
            ));
        }
        assert(out@.map_values(|i: usize| i as int) =~= base + firing_positions(
            index@,
            message@,
            layer,
            (i + 1) as nat,
        ));
        i = i + 1;
    }
}

/// The positions in `index` of the entries that the lowercased message
/// triggers, highest priority first, at most `TRIGGER_MAX_FILES`.
pub fn select_triggered(index: &Vec<TriggerEntry>, lower_message: &str) -> (r: Vec<usize>)
    ensures
        r@.map_values(|i: usize| i as int) == triggered_positions(index@, lower_message@),
{
    let message = chars_of(lower_message);
    let mut r: Vec<usize> = Vec::new();
    push_firing(index, &message, IndexLayer::Project, &mut r);
    push_firing(index, &message, IndexLayer::Knowledge, &mut r);
    let ghost all = r@.map_values(|i: usize| i as int);
    assert(all =~= firing_positions(index@, lower_message@, IndexLayer::Project, index@.len())
        + firing_positions(index@, lower_message@, IndexLayer::Knowledge, index@.len()));
    if r.len() > TRIGGER_MAX_FILES {
        r.truncate(TRIGGER_MAX_FILES);
        assert(r@.map_values(|i: usize| i as int) =~= all.take(TRIGGER_MAX_FILES as int));
    }
    r
}

/// Where the context of a message comes from: the files its keywords
/// trigger, or else cached semantic search results for a similar message,
/// or nothing.
#[derive(PartialEq, Eq, Structural)]
pub enum ContextSource {
    Keywords,
    CachedSearch,
    Nothing,
}

/// The source of a message's context, given how many indexed files its
/// keywords trigger and the cached semantic search (its age in seconds and
/// its query), if any.
pub open spec fn context_source_of(
    keyword_hits: nat,
    cache: Option<(u64, Seq<char>)>,
    lower_message: Seq<char>,
) -> ContextSource {
    if keyword_hits > 0 {
        ContextSource::Keywords
    } else if cache matches Some(c) && c.0 < SEMANTIC_CACHE_TTL_SECS && similar(c.1, lower_message) {
        ContextSource::CachedSearch
    } else {
        ContextSource::Nothing
    }
}

/// Decides where the context of the (lowercased) message comes from.  A new
/// semantic search runs in the background whenever keywords trigger
/// nothing.
pub fn context_source(keyword_hits: usize, cache: &Option<(u64, String)>, lower_message: &str) -> (r:
    ContextSource)
    ensures
        r == context_source_of(
            keyword_hits as nat,
            match cache {
                Some(c) => Some((c.0, c.1@)),
                None => None,
            },
            lower_message@,
        ),
{
    if keyword_hits > 0 {
        return ContextSource::Keywords;
    }
    match cache {
        Some(c) => {
            if semantic_cache_hit(c.0, c.1.as_str(), lower_message) {
                ContextSource::CachedSearch
            } else {
                ContextSource::Nothing
            }
        },
        None => ContextSource::Nothing,
    }
}

/// Whether the cached trigger index may be reused: built for the same
/// agent root and younger than `INDEX_CACHE_TTL_SECS`.
pub fn index_cache_fresh(same_root: bool, age_secs: u64) -> (r: bool)
    ensures
        r == (same_root && age_secs < INDEX_CACHE_TTL_SECS),
{
    same_root && age_secs < INDEX_CACHE_TTL_SECS
}

/// Whether cached semantic results answer the (lowercased) message: younger
/// than `SEMANTIC_CACHE_TTL_SECS` and for a similar query.
pub fn semantic_cache_hit(age_secs: u64, cached_query: &str, lower_message: &str) -> (r: bool)
    ensures
        r == (age_secs < SEMANTIC_CACHE_TTL_SECS && similar(cached_query@, lower_message@)),
{
    age_secs < SEMANTIC_CACHE_TTL_SECS && messages_similar(cached_query, lower_message)
}

/// The layer name for a semantic search category.
pub open spec fn category_layer(category: Seq<char>) -> Seq<char> {
    if category == "project"@ {
        LAYER_PROJECT@
    } else if category == "knowledge"@ {
        LAYER_KNOWLEDGE@
    } else if category == "episodic"@ {
        LAYER_EPISODIC@
    } else {
        LAYER_CONTEXT@
    }
}

/// The layer name under which a semantic search result is shown.
pub fn layer_for_category(category: &str) -> (r: &'static str)
    ensures
        r@ == category_layer(category@),
{
    let c = crate::text::string_of_str(category);
    if c == crate::text::string_of_str("project") {
        LAYER_PROJECT
    } else if c == crate::text::string_of_str("knowledge") {
        LAYER_KNOWLEDGE
    } else if c == crate::text::string_of_str("episodic") {
        LAYER_EPISODIC
    } else {
        LAYER_CONTEXT
    }
}

/// The files that cached semantic results load: the first
/// `TRIGGER_MAX_FILES` results, each as its path under the agent root and
/// the layer name of its category.
pub open spec fn semantic_file_picks(
    agent_root: Seq<char>,
    results: Seq<(Seq<char>, Seq<char>)>,
) -> Seq<(Seq<char>, Seq<char>)> {
    first_n(results, TRIGGER_MAX_FILES as nat).map_values(
        |r: (Seq<char>, Seq<char>)| (join_path(agent_root, r.0), category_layer(r.1)),
    )
}

/// The files to load from cached semantic results, with their layer names.
pub fn semantic_picks(agent_root: &str, results: &Vec<(String, String)>) -> (r: Vec<
    (String, &'static str),
>)
    ensures
        r@.map_values(|p: (String, &'static str)| (p.0@, p.1@)) == semantic_file_picks(
            agent_root@,
            task_views(results@),
        ),
{
    let n = if results.len() <= TRIGGER_MAX_FILES {
        results.len()
    } else {
        TRIGGER_MAX_FILES
    };
    let ghost picks = semantic_file_picks(agent_root@, task_views(results@));
    let mut r: Vec<(String, &'static str)> = Vec::new();
    let mut i: usize = 0;
    while i < n
        invariant
            n <= results@.len(),
            n as nat == picks.len(),
            picks == semantic_file_picks(agent_root@, task_views(results@)),
            0 <= i <= n,
            r@.len() == i,
            r@.map_values(|p: (String, &'static str)| (p.0@, p.1@)) == picks.take(i as int),
        decreases n - i,
    {
        let path = join(agent_root, results[i].0.as_str());
        let layer = layer_for_category(results[i].1.as_str());
        let ghost prev = r@;
        proof {
            let tv = task_views(results@);
            assert(tv[i as int] == (results@[i as int].0@, results@[i as int].1@));
            assert(first_n(tv, TRIGGER_MAX_FILES as nat)[i as int] == tv[i as int]);
            assert(picks[i as int] == (path@, layer@));
        }
        let ghost pv = (path@, layer@);
        r.push((path, layer));
        proof {
            assert(r@[i as int].0@ == pv.0);
            assert(r@[i as int].1@ == pv.1);
            assert(prev.map_values(|p: (String, &'static str)| (p.0@, p.1@)) == picks.take(i as int));
            assert forall|j: int| 0 <= j < i implies r@[j] == prev[j] by {}
        }
        assert(r@.map_values(|p: (String, &'static str)| (p.0@, p.1@)) =~= picks.take(i + 1));
        i = i + 1;
    }
    assert(picks.take(n as int) =~= picks);
    r
}

/// What a message loads: the (path, layer name) pairs of the files to read,
/// in order, and whether a new semantic search starts in the background.
pub struct ContextPlan {
    pub files: Vec<(String, &'static str)>,
    pub start_search: bool,
}

/// The files of the triggered index positions, with their layer names.
pub open spec fn keyword_file_picks(index: Seq<TriggerEntry>, positions: Seq<int>) -> Seq<
    (Seq<char>, Seq<char>),
> {
    positions.map_values(|p: int| (index[p].file_path@, index[p].layer.name_of()))
}

/// The files a message loads: those its keywords trigger; else, when the
/// cached search answers a similar message, its first picks; else none.
pub open spec fn planned_files(
    index: Seq<TriggerEntry>,
    lower_message: Seq<char>,
    cache: Option<(u64, Seq<char>)>,
    cached_results: Seq<(Seq<char>, Seq<char>)>,
    agent_root: Seq<char>,
) -> Seq<(Seq<char>, Seq<char>)> {
    let sel = triggered_positions(index, lower_message);
    match context_source_of(sel.len(), cache, lower_message) {
        ContextSource::Keywords => keyword_file_picks(index, sel),
        ContextSource::CachedSearch => semantic_file_picks(agent_root, cached_results),
        ContextSource::Nothing => Seq::<(Seq<char>, Seq<char>)>::empty(),
    }
}

/// Plans what a (lowercased) message loads, given the trigger index, the
/// cached semantic search (its age in seconds and query, when there is one)
/// with its results, and the agent root.  A new search starts whenever the
/// keywords trigger nothing.
pub fn plan_context(
    index: &Vec<TriggerEntry>,
    lower_message: &str,
    cache: &Option<(u64, String)>,
    cached_results: &Vec<(String, String)>,
    agent_root: &str,
) -> (r: ContextPlan)
    ensures
        r.files@.map_values(|p: (String, &'static str)| (p.0@, p.1@)) == planned_files(
            index@,
            lower_message@,
            match cache {
                Some(c) => Some((c.0, c.1@)),
                None => None,
            },
            task_views(cached_results@),
            agent_root@,
        ),
        r.start_search == (triggered_positions(index@, lower_message@).len() == 0),
{
    let selected = select_triggered(index, lower_message);
    let ghost sel = triggered_positions(index@, lower_message@);
    proof {
        lemma_triggered_selection(index@, lower_message@);
        assert(selected@.len() == sel.len());
    }
    let source = context_source(selected.len(), cache, lower_message);
    match source {
        ContextSource::Keywords => {
            let mut files: Vec<(String, &'static str)> = Vec::new();
            let mut i: usize = 0;
            while i < selected.len()
                invariant
                    0 <= i <= selected@.len(),
                    selected@.map_values(|i: usize| i as int) == sel,
                    sel == triggered_positions(index@, lower_message@),
                    forall|k: int| 0 <= k < sel.len() ==> 0 <= #[trigger] sel[k] < index@.len(),
                    files@.len() == i,
                    files@.map_values(|p: (String, &'static str)| (p.0@, p.1@))
                        == keyword_file_picks(index@, sel).take(i as int),
                decreases selected@.len() - i,
            {
                let p = selected[i];
                assert(sel[i as int] == p as int);
                let e = &index[p];
                let path = crate::text::string_of_str(e.file_path.as_str());
                let layer = e.layer.name();
                let ghost pv = (path@, layer@);
                let ghost prev = files@;
                files.push((path, layer));
                proof {
                    assert(files@[i as int].0@ == pv.0);
                    assert(files@[i as int].1@ == pv.1);
                    assert(keyword_file_picks(index@, sel)[i as int] == pv);
                    assert forall|j: int| 0 <= j < i implies files@[j] == prev[j] by {}
                }
                assert(files@.map_values(|p: (String, &'static str)| (p.0@, p.1@)) =~= keyword_file_picks(
                    index@,
                    sel,
                ).take(i + 1));
                i = i + 1;
            }
            assert(keyword_file_picks(index@, sel).take(sel.len() as int) =~= keyword_file_picks(
                index@,
                sel,
            ));
            ContextPlan { files, start_search: false }
        },
        ContextSource::CachedSearch => {
            let files = semantic_picks(agent_root, cached_results);
            ContextPlan { files, start_search: true }
        },
        ContextSource::Nothing => {
            let files: Vec<(String, &'static str)> = Vec::new();
            assert(files@.map_values(|p: (String, &'static str)| (p.0@, p.1@)) =~= Seq::<
                (Seq<char>, Seq<char>),
            >::empty());
            ContextPlan { files, start_search: true }
        },
    }
}

/// How the search process stands when it is polled.
pub enum ChildPoll {
    Exited { success: bool },
    Running,
    Failed,
}

/// What to do next while waiting for the search process.
#[derive(PartialEq, Eq, Structural)]
pub enum WaitStep {
    /// It finished successfully: read its output.
    ReadOutput,
    /// It failed, or polling it failed: give up.
    GiveUp,
    /// It ran out of time: kill it, reap it and give up.
    KillAndGiveUp,
    /// Sleep this many milliseconds and poll again.
    Sleep(u64),
}

/// How long the search may run, in milliseconds.
pub const SEARCH_TIMEOUT_MILLIS: u64 = 5000;

/// How long to sleep between polls, in milliseconds.
pub const SEARCH_POLL_MILLIS: u64 = 50;

/// The next step while waiting for the search, given how it stands and how
/// many milliseconds have passed since it started.
pub open spec fn wait_step_of(poll: ChildPoll, elapsed_millis: u64) -> WaitStep {
    match poll {
        ChildPoll::Exited { success } => if success {
            WaitStep::ReadOutput
        } else {
            WaitStep::GiveUp
        },
        ChildPoll::Running => if elapsed_millis >= SEARCH_TIMEOUT_MILLIS {
            WaitStep::KillAndGiveUp
        } else {
            WaitStep::Sleep(SEARCH_POLL_MILLIS)
        },
        ChildPoll::Failed => WaitStep::GiveUp,
    }
}

/// Decides the next step while waiting for the search process.
pub fn search_wait_step(poll: ChildPoll, elapsed_millis: u64) -> (r: WaitStep)
    ensures
        r == wait_step_of(poll, elapsed_millis),
{
    match poll {
        ChildPoll::Exited { success } => if success {
            WaitStep::ReadOutput
        } else {
            WaitStep::GiveUp
        },
        ChildPoll::Running => if elapsed_millis >= SEARCH_TIMEOUT_MILLIS {
            WaitStep::KillAndGiveUp
        } else {
            WaitStep::Sleep(SEARCH_POLL_MILLIS)
        },
        ChildPoll::Failed => WaitStep::GiveUp,
    }
}

/// The longest search query passed to the semantic search.
pub const SEARCH_QUERY_MAX_CHARS: usize = 200;

/// The message as the semantic search receives it: its first 200 characters.
pub fn search_query(user_message: &str) -> (r: String)
    ensures
        r@ == first_n(user_message@, SEARCH_QUERY_MAX_CHARS as nat),
{
    let v = chars_of(user_message);
    let n = if v.len() <= SEARCH_QUERY_MAX_CHARS {
        v.len()
    } else {
        SEARCH_QUERY_MAX_CHARS
    };
    let r = string_of_range(&v, 0, n);
    assert(r@ =~= first_n(user_message@, SEARCH_QUERY_MAX_CHARS as nat));
    r
}

proof fn lemma_overlap_all(a: Seq<Seq<char>>, c: Seq<Seq<char>>)
    requires
        forall|i: int| 0 <= i < a.len() ==> c.contains(#[trigger] a[i]),
    ensures
        overlap(a, c) == a.len(),
    decreases a.len(),
{
    if a.len() > 0 {
        let t = a.drop_last();
        assert forall|i: int| 0 <= i < t.len() implies c.contains(#[trigger] t[i]) by {
            assert(t[i] == a[i]);
        }
        lemma_overlap_all(t, c);
        assert(c.contains(a[a.len() - 1]));
    }
}

/// A message with at least one word is similar to itself.
pub proof fn lemma_message_similar_to_itself(q: Seq<char>)
    requires
        words(q).len() > 0,
    ensures
        similar(q, q),
{
    let w = words(q);
    assert forall|i: int| 0 <= i < w.len() implies w.contains(#[trigger] w[i]) by {}
    lemma_overlap_all(w, w);
}

proof fn lemma_overlap_grows(n: Seq<Seq<char>>, c: Seq<Seq<char>>, d: Seq<Seq<char>>)
    ensures
        overlap(n, c) <= overlap(n, c + d),
    decreases n.len(),
{
    if n.len() > 0 {
        lemma_overlap_grows(n.drop_last(), c, d);
        if c.contains(n.last()) {
            let i = choose|i: int| 0 <= i < c.len() && c[i] == n.last();
            assert((c + d)[i] == n.last());
        }
    }
}

/// Adding words to the cached query never turns a match into a miss.
pub proof fn lemma_similar_after_more_cached_words(
    cached_query: Seq<char>,
    new_query: Seq<char>,
    more: Seq<char>,
)
    requires
        similar(cached_query, new_query),
    ensures
        similar(cached_query + seq![' '] + more, new_query),
{
    crate::text::lemma_words_concat(cached_query, more);
    lemma_overlap_grows(words(new_query), words(cached_query), words(more));
}

proof fn lemma_firing_positions(
    index: Seq<TriggerEntry>,
    message: Seq<char>,
    layer: IndexLayer,
    n: nat,
)
    requires
        n <= index.len(),
    ensures
        forall|k: int|
            0 <= k < firing_positions(index, message, layer, n).len() ==> {
                let p = #[trigger] firing_positions(index, message, layer, n)[k];
                &&& 0 <= p < n
                &&& index[p].layer == layer
                &&& entry_fires(string_views(index[p].keywords@), message)
            },
        forall|j: int, k: int|
            0 <= j < k < firing_positions(index, message, layer, n).len() ==> #[trigger] firing_positions(
                index,
                message,
                layer,
                n,
            )[j] < #[trigger] firing_positions(index, message, layer, n)[k],
    decreases n,
{
    if n > 0 {
        lemma_firing_positions(index, message, layer, (n - 1) as nat);
    }
}

/// The files that a message triggers: at most `TRIGGER_MAX_FILES`, each one
/// an entry of the index whose keywords occur in the message, none twice,
/// in order of priority and, within one priority, in index order.
pub proof fn lemma_triggered_selection(index: Seq<TriggerEntry>, message: Seq<char>)
    ensures
        triggered_positions(index, message).len() <= TRIGGER_MAX_FILES,
        forall|k: int|
            0 <= k < triggered_positions(index, message).len() ==> {
                let p = #[trigger] triggered_positions(index, message)[k];
                &&& 0 <= p < index.len()
                &&& entry_fires(string_views(index[p].keywords@), message)
            },
        forall|j: int, k: int|
            0 <= j < k < triggered_positions(index, message).len() ==> {
                let a = #[trigger] triggered_positions(index, message)[j];
                let b = #[trigger] triggered_positions(index, message)[k];
                &&& a != b
                &&& index[a].layer.priority_of() <= index[b].layer.priority_of()
                &&& index[a].layer == index[b].layer ==> a < b
            },
{
    let n = index.len();
    let pp = firing_positions(index, message, IndexLayer::Project, n);
    let kp = firing_positions(index, message, IndexLayer::Knowledge, n);
    lemma_firing_positions(index, message, IndexLayer::Project, n);
    lemma_firing_positions(index, message, IndexLayer::Knowledge, n);
    let all = pp + kp;
    let t = triggered_positions(index, message);
    assert forall|k: int| 0 <= k < t.len() implies t[k] == all[k] && (k < pp.len() ==> all[k]
        == pp[k]) && (k >= pp.len() ==> all[k] == kp[k - pp.len()]) by {}
    assert forall|k: int| 0 <= k < t.len() implies {
        let p = #[trigger] t[k];
        &&& 0 <= p < index.len()
        &&& entry_fires(string_views(index[p].keywords@), message)
    } by {
        if k < pp.len() {
            assert(pp[k] == all[k]);
        } else {
            assert(kp[k - pp.len()] == all[k]);
        }
    }
    assert forall|j: int, k: int| 0 <= j < k < t.len() implies {
        let a = #[trigger] t[j];
        let b = #[trigger] t[k];
        &&& a != b
        &&& index[a].layer.priority_of() <= index[b].layer.priority_of()
        &&& index[a].layer == index[b].layer ==> a < b
    } by {
        if k < pp.len() {
            assert(pp[j] < pp[k]);
        } else if j >= pp.len() {
            assert(kp[j - pp.len()] < kp[k - pp.len()]);
        } else {
            assert(index[pp[j]].layer == IndexLayer::Project);
            assert(index[kp[k - pp.len()]].layer == IndexLayer::Knowledge);
        }
    }
}

proof fn lemma_firing_includes(
    index: Seq<TriggerEntry>,
    message: Seq<char>,
    n: nat,
    i: int,
    k: int,
)
    requires
        0 <= i < n <= index.len(),
        0 <= k < index[i].keywords@.len(),
        has_substring(message, index[i].keywords@[k]@),
    ensures
        firing_positions(index, message, index[i].layer, n).contains(i),
    decreases n,
{
    let kws = string_views(index[i].keywords@);
    assert(kws[k] == index[i].keywords@[k]@);
    assert(entry_fires(kws, message));
    let prev = firing_positions(index, message, index[i].layer, (n - 1) as nat);
    if i == n - 1 {
        assert(prev.push(i)[prev.len() as int] == i);
    } else {
        lemma_firing_includes(index, message, (n - 1) as nat, i, k);
        let j = choose|j: int| 0 <= j < prev.len() && prev[j] == i;
        let m = n - 1;
        if index[m].layer == index[i].layer && entry_fires(
            string_views(index[m].keywords@),
            message,
        ) {
            assert(prev.push(m)[j] == i);
        }
    }
}

/// An entry fires on a message as soon as any one of its keywords, at any
/// position of its list, occurs in the message: it is then among the firing
/// entries of its layer, and the message triggers at least one file.
pub proof fn lemma_any_keyword_triggers(index: Seq<TriggerEntry>, message: Seq<char>, i: int, k: int)
    requires
        0 <= i < index.len(),
        0 <= k < index[i].keywords@.len(),
        has_substring(message, index[i].keywords@[k]@),
    ensures
        firing_positions(index, message, index[i].layer, index.len()).contains(i),
        triggered_positions(index, message).len() > 0,
{
    lemma_firing_includes(index, message, index.len(), i, k);
    let pp = firing_positions(index, message, IndexLayer::Project, index.len());
    let kp = firing_positions(index, message, IndexLayer::Knowledge, index.len());
    match index[i].layer {
        IndexLayer::Project => assert(pp.len() > 0),
        IndexLayer::Knowledge => assert(kp.len() > 0),
    }
    assert((pp + kp).len() > 0);
}

/// Adding keywords to an entry, before or after the ones it has, never
/// stops it firing.
pub proof fn lemma_more_keywords_still_fire(
    keywords: Seq<Seq<char>>,
    before: Seq<Seq<char>>,
    after: Seq<Seq<char>>,
    message: Seq<char>,
)
    requires
        entry_fires(keywords, message),
    ensures
        entry_fires(before + keywords + after, message),
{
    let k = choose|k: int| 0 <= k < keywords.len() && has_substring(message, #[trigger] keywords[k]);
    let all = before + keywords + after;
    assert(all[before.len() + k] == keywords[k]);
}

/// The cached search answers a message when every word of the message
/// occurs among the cached query's words, however many other words that
/// query has: with both having words, a fresh cache and no keyword hit, the
/// source is the cached search.
pub proof fn lemma_cached_search_answers_contained_words(
    age: u64,
    cached_query: Seq<char>,
    lower_message: Seq<char>,
)
    requires
        age < SEMANTIC_CACHE_TTL_SECS,
        words(lower_message).len() > 0,
        words(cached_query).len() > 0,
        forall|i: int|
            0 <= i < words(lower_message).len() ==> words(cached_query).contains(
                #[trigger] words(lower_message)[i],
            ),
    ensures
        similar(cached_query, lower_message),
        context_source_of(0, Some((age, cached_query)), lower_message)
            == ContextSource::CachedSearch,
{
    lemma_overlap_all(words(lower_message), words(cached_query));
}

// ---------------------------------------------------------------------------
// Formatting
// ---------------------------------------------------------------------------

pub const SECTION_MARK: &'static str = "### ";

pub const SECTION_DASH: &'static str = " \u{2014} ";

pub const SECTION_TRUNCATED: &'static str = "...\n[truncated]";

/// The body of a context section: the content, cut to its first 3000
/// characters with a note when it is longer.
pub open spec fn section_body(content: Seq<char>) -> Seq<char> {
    if content.len() > TRIGGER_FILE_MAX_CHARS {
        content.take(TRIGGER_FILE_MAX_CHARS as int) + SECTION_TRUNCATED@
    } else {
        content
    }
}

/// A file shown as a context section: `### <layer> — <file name>` and its
/// (possibly cut) content.
pub fn format_file_section(layer: &str, file_name: &str, content: &str) -> (r: String)
    ensures
        r@ == SECTION_MARK@ + layer@ + SECTION_DASH@ + file_name@ + "\n"@ + section_body(content@),
{
    let mut r = String::new();
    push_str(&mut r, SECTION_MARK);
    push_str(&mut r, layer);
    push_str(&mut r, SECTION_DASH);
    push_str(&mut r, file_name);
    push_str(&mut r, "\n");
    let v = chars_of(content);
    if v.len() > TRIGGER_FILE_MAX_CHARS {
        crate::text::push_range(&mut r, &v, 0, TRIGGER_FILE_MAX_CHARS);
        push_str(&mut r, SECTION_TRUNCATED);
    } else {
        push_str(&mut r, content);
    }
    assert(r@ =~= SECTION_MARK@ + layer@ + SECTION_DASH@ + file_name@ + "\n"@ + section_body(
        content@,
    ));
    r
}

/// `parts` joined with `sep` between consecutive parts.
pub open spec fn joined(parts: Seq<Seq<char>>, sep: Seq<char>) -> Seq<char>
    decreases parts.len(),
{
    if parts.len() == 0 {
        Seq::<char>::empty()
    } else if parts.len() == 1 {
        parts[0]
    } else {
        joined(parts.drop_last(), sep) + sep + parts.last()
    }
}

/// No piece of a split holds a separator.
proof fn lemma_split_pieces_without_separator(s: Seq<char>, cls: CharClass)
    ensures
        forall|i: int, j: int|
            0 <= i < split_on(s, cls).len() && 0 <= j < split_on(s, cls)[i].len() ==> !cls.has(
                #[trigger] split_on(s, cls)[i][j],
            ),
    decreases s.len(),
{
    if s.len() > 0 {
        let t = s.drop_last();
        lemma_split_pieces_without_separator(t, cls);
        crate::text::lemma_split_on_nonempty(t, cls);
        let p = split_on(t, cls);
        let q = split_on(s, cls);
        if !cls.has(s.last()) {
            assert forall|i: int, j: int| 0 <= i < q.len() && 0 <= j < q[i].len() implies !cls.has(
                #[trigger] q[i][j],
            ) by {
                if i == p.len() - 1 {
                    if j < p[i].len() {
                        assert(q[i][j] == p[i][j]);
                    }
                } else {
                    assert(q[i] == p[i]);
                }
            }
        } else {
            assert forall|i: int, j: int| 0 <= i < q.len() && 0 <= j < q[i].len() implies !cls.has(
                #[trigger] q[i][j],
            ) by {
                if i < p.len() {
                    assert(q[i] == p[i]);
                }
            }
        }
    }
}

/// Lines joined with line breaks split back into the same lines, when none
/// of them holds a line break.
proof fn lemma_lines_of_joined(parts: Seq<Seq<char>>)
    requires
        parts.len() >= 1,
        forall|i: int, j: int|
            0 <= i < parts.len() && 0 <= j < parts[i].len() ==> #[trigger] parts[i][j] != '\n',
    ensures
        lines(joined(parts, seq!['\n'])) == parts,
    decreases parts.len(),
{
    let last = parts.last();
    assert forall|j: int| 0 <= j < last.len() implies !CharClass::Exactly('\n').has(
        #[trigger] last[j],
    ) by {
        assert(parts[parts.len() - 1][j] != '\n');
    }
    crate::text::lemma_split_on_without_separator(last, CharClass::Exactly('\n'));
    if parts.len() == 1 {
        assert(seq![last] =~= parts);
    } else {
        let front = parts.drop_last();
        assert forall|i: int, j: int| 0 <= i < front.len() && 0 <= j < front[i].len() implies #[trigger] front[i][j]
            != '\n' by {
            assert(front[i] == parts[i]);
        }
        lemma_lines_of_joined(front);
        let jf = joined(front, seq!['\n']);
        assert(joined(parts, seq!['\n']) =~= jf.push('\n') + last);
        crate::text::lemma_split_on_concat(jf, '\n', last, CharClass::Exactly('\n'));
        assert(front + seq![last] =~= parts);
    }
}

proof fn lemma_scan_prefix(ls: Seq<Seq<char>>, k: int, j: int)
    requires
        1 <= j <= k < ls.len(),
        frontmatter_scan_ends(k as nat, ls[k]),
        forall|m: int| j <= m < k ==> !frontmatter_scan_ends(m as nat, #[trigger] ls[m]),
    ensures
        scan_frontmatter(ls.take(k + 1), j) == scan_frontmatter(ls, j),
    decreases k - j,
{
    let pre = ls.take(k + 1);
    assert(pre[j] == ls[j]);
    if j < k {
        assert(!frontmatter_scan_ends(j as nat, ls[j]));
        lemma_scan_prefix(ls, k, j + 1);
    }
}

/// Reading a file's lines only up to the first one that decides the
/// frontmatter scan gives the same triggers as reading the whole file.
pub proof fn lemma_frontmatter_prefix_suffices(content: Seq<char>, k: int)
    requires
        0 <= k < lines(content).len(),
        frontmatter_scan_ends(k as nat, lines(content)[k]),
        forall|j: int| 0 <= j < k ==> !frontmatter_scan_ends(j as nat, #[trigger] lines(content)[j]),
    ensures
        frontmatter_triggers(joined(lines(content).take(k + 1), seq!['\n'])) == frontmatter_triggers(
            content,
        ),
{
    let ls = lines(content);
    let pre = ls.take(k + 1);
    lemma_split_pieces_without_separator(content, CharClass::Exactly('\n'));
    assert forall|i: int, j: int| 0 <= i < pre.len() && 0 <= j < pre[i].len() implies #[trigger] pre[i][j]
        != '\n' by {
        assert(pre[i] == ls[i]);
        assert(!CharClass::Exactly('\n').has(ls[i][j]));
    }
    lemma_lines_of_joined(pre);
    assert(pre[0] == ls[0]);
    if trim(ls[0]) == FRONTMATTER_FENCE@ {
        assert(k >= 1);
        if 0 < k {
            assert(!frontmatter_scan_ends(0, ls[0]));
        }
        lemma_scan_prefix(ls, k, 1);
    }
}

pub const TRIGGERED_HEADER: &'static str = "\n## TRIGGERED CONTEXT\nThe following context was auto-loaded based on the user's message.\n\n";

pub const SECTION_SEPARATOR: &'static str = "\n\n";

/// The text injected into the system prompt for the loaded sections.
pub open spec fn triggered_context(sections: Seq<Seq<char>>) -> Seq<char> {
    if sections.len() == 0 {
        Seq::<char>::empty()
    } else {
        TRIGGERED_HEADER@ + joined(sections, SECTION_SEPARATOR@)
    }
}

/// The triggered-context block for the loaded sections; empty when no
/// section was loaded.
pub fn format_triggered_context(sections: &Vec<String>) -> (r: String)
    ensures
        r@ == triggered_context(string_views(sections@)),
{
    let mut r = String::new();
    if sections.len() == 0 {
        assert(r@ =~= triggered_context(string_views(sections@)));
        return r;
    }
    push_str(&mut r, TRIGGERED_HEADER);
    let ghost views = string_views(sections@);
    push_str(&mut r, sections[0].as_str());
    assert(views.take(1) =~= seq![views[0]]);
    let mut i: usize = 1;
    while i < sections.len()
        invariant
            views == string_views(sections@),
            1 <= i <= sections@.len(),
            r@ == TRIGGERED_HEADER@ + joined(views.take(i as int), SECTION_SEPARATOR@),
        decreases sections@.len() - i,
    {
        push_str(&mut r, SECTION_SEPARATOR);
        push_str(&mut r, sections[i].as_str());
        proof {
            assert(views.take(i + 1).drop_last() =~= views.take(i as int));
            assert(views.take(i + 1).last() == views[i as int]);
        }
        assert(r@ =~= TRIGGERED_HEADER@ + joined(views.take(i + 1), SECTION_SEPARATOR@));
        i = i + 1;
    }
    assert(views.take(sections@.len() as int) =~= views);
    r
}

} // verus!
