//! Absolute paths as lists of components.
//!
//! A path is read the way the operating system reads it, without asking the
//! file system: runs of separators count as one, a component `.` names the
//! directory it stands in and is dropped, and `..` is kept as it is written,
//! because what it names depends on the links before it.

use vstd::prelude::*;

verus! {

/// The byte that separates components.
pub const SEPARATOR: u8 = 0x2f;

/// The byte `.`.
pub const DOT: u8 = 0x2e;

/// Whether the spelling starts at the root.
pub open spec fn is_absolute(p: Seq<u8>) -> bool {
    p.len() > 0 && p[0] == SEPARATOR
}

/// The runs of bytes between separators, empty runs included. A spelling with
/// `n` separators has `n + 1` segments.
pub open spec fn segments(p: Seq<u8>) -> Seq<Seq<u8>>
    decreases p.len(),
{
    if p.len() == 0 {
        seq![Seq::<u8>::empty()]
    } else {
        let before = segments(p.drop_last());
        if p.last() == SEPARATOR {
            before.push(Seq::<u8>::empty())
        } else {
            before.drop_last().push(before.last().push(p.last()))
        }
    }
}

/// A segment that names something: not empty and not `.`.
pub open spec fn is_component(s: Seq<u8>) -> bool {
    s.len() > 0 && s != seq![DOT]
}

/// A component as a normal path holds it: it names something and holds no
/// separator.
pub open spec fn valid_component(s: Seq<u8>) -> bool {
    is_component(s) && !s.contains(SEPARATOR)
}

/// Whether every part is a valid component.
pub open spec fn valid_parts(parts: Seq<Seq<u8>>) -> bool {
    forall|i: int| 0 <= i < parts.len() ==> valid_component(#[trigger] parts[i])
}

/// The components of a spelling, in order.
pub open spec fn components(p: Seq<u8>) -> Seq<Seq<u8>> {
    segments(p).filter(|s: Seq<u8>| is_component(s))
}

/// Each part behind a separator, one after the other.
pub open spec fn render(parts: Seq<Seq<u8>>) -> Seq<u8>
    decreases parts.len(),
{
    if parts.len() == 0 {
        Seq::<u8>::empty()
    } else {
        render(parts.drop_last()) + seq![SEPARATOR] + parts.last()
    }
}

/// The spelling of the absolute path with these components. The root is
/// spelled with one separator.
pub open spec fn spelling(parts: Seq<Seq<u8>>) -> Seq<u8> {
    if parts.len() == 0 {
        seq![SEPARATOR]
    } else {
        render(parts)
    }
}

/// The normal spelling of an absolute path.
pub open spec fn normalized(p: Seq<u8>) -> Seq<u8> {
    spelling(components(p))
}

/// `rel` read from `base`: an absolute `rel` stands for itself, any other is
/// appended to `base` behind a separator.
pub open spec fn joined(base: Seq<u8>, rel: Seq<u8>) -> Seq<u8> {
    if is_absolute(rel) {
        rel
    } else if base.len() == 0 || base.last() == SEPARATOR {
        base + rel
    } else {
        base + seq![SEPARATOR] + rel
    }
}

/// The components of the target of a symlink that stands at `at` and holds
/// `link`, or `None` where a relative link stands at the root, which has no
/// directory above it.
pub open spec fn resolved(at: Seq<Seq<u8>>, link: Seq<u8>) -> Option<Seq<Seq<u8>>> {
    if is_absolute(link) {
        Some(components(link))
    } else if at.len() == 0 {
        None
    } else {
        Some(at.drop_last() + components(link))
    }
}

/// The directory that holds the last component, or `None` for the root.
pub open spec fn parent_of(parts: Seq<Seq<u8>>) -> Option<Seq<Seq<u8>>> {
    if parts.len() == 0 {
        None
    } else {
        Some(parts.drop_last())
    }
}

/// The last component, or `None` for the root and for a path that ends in
/// `..`, which names no entry of the directory before it.
pub open spec fn name_of(parts: Seq<Seq<u8>>) -> Option<Seq<u8>> {
    if parts.len() == 0 || parts.last() == seq![DOT, DOT] {
        None
    } else {
        Some(parts.last())
    }
}

/// The path itself, then the directory that holds it, and so on up to the
/// root.
pub open spec fn ancestors_of(parts: Seq<Seq<u8>>) -> Seq<Seq<Seq<u8>>> {
    Seq::new(parts.len() + 1, |i: int| parts.take(parts.len() - i))
}

/// Whether `dir` is `parts` or a directory on the way from the root to it.
pub open spec fn leads_to(dir: Seq<Seq<u8>>, parts: Seq<Seq<u8>>) -> bool {
    dir.len() <= parts.len() && parts.take(dir.len() as int) == dir
}

/// The views of the items of a list, in order.
pub open spec fn views<T: View>(v: Seq<T>) -> Seq<T::V> {
    Seq::new(v.len(), |i: int| v[i]@)
}

proof fn lemma_filter_push(s: Seq<Seq<u8>>, x: Seq<u8>)
    ensures
        s.push(x).filter(|s: Seq<u8>| is_component(s)) == if is_component(x) {
            s.filter(|s: Seq<u8>| is_component(s)).push(x)
        } else {
            s.filter(|s: Seq<u8>| is_component(s))
        },
{
    reveal(Seq::filter);
    assert(s.push(x).drop_last() =~= s);
}

/// A spelling has at least one segment, and no segment holds a separator.
pub proof fn lemma_segments(p: Seq<u8>)
    ensures
        segments(p).len() >= 1,
        forall|i: int|
            0 <= i < segments(p).len() ==> !(#[trigger] segments(p)[i]).contains(SEPARATOR),
    decreases p.len(),
{
    if p.len() > 0 {
        lemma_segments(p.drop_last());
        let before = segments(p.drop_last());
        if p.last() != SEPARATOR {
            let grown = before.last().push(p.last());
            assert(!grown.contains(SEPARATOR)) by {
                if grown.contains(SEPARATOR) {
                    let k = choose|k: int| 0 <= k < grown.len() && grown[k] == SEPARATOR;
                    assert(before.last()[k] == SEPARATOR);
                    assert(before.last().contains(SEPARATOR));
                }
            }
        }
    }
}

/// The components of any spelling are valid.
pub proof fn lemma_components_valid(p: Seq<u8>)
    ensures
        valid_parts(components(p)),
{
    let keep = |s: Seq<u8>| is_component(s);
    let parts = components(p);
    lemma_segments(p);
    assert forall|i: int| 0 <= i < parts.len() implies valid_component(#[trigger] parts[i]) by {
        segments(p).lemma_filter_pred(keep, i);
        assert(parts.contains(parts[i]));
        segments(p).lemma_filter_contains_rev(keep, parts[i]);
        let k = choose|k: int| 0 <= k < segments(p).len() && segments(p)[k] == parts[i];
        assert(!segments(p)[k].contains(SEPARATOR));
    }
}

/// The segments of two spellings put together behind a separator are the
/// segments of the one followed by those of the other.
pub proof fn lemma_segments_concat(a: Seq<u8>, b: Seq<u8>)
    ensures
        segments(a + seq![SEPARATOR] + b) == segments(a) + segments(b),
    decreases b.len(),
{
    let whole = a + seq![SEPARATOR] + b;
    lemma_segments(a);
    if b.len() == 0 {
        assert(whole.drop_last() =~= a);
        assert(whole.last() == SEPARATOR);
        assert(segments(b) =~= seq![Seq::<u8>::empty()]);
        assert(segments(a).push(Seq::<u8>::empty()) =~= segments(a) + segments(b));
    } else {
        lemma_segments_concat(a, b.drop_last());
        lemma_segments(b.drop_last());
        assert(whole.drop_last() =~= a + seq![SEPARATOR] + b.drop_last());
        assert(whole.last() == b.last());
        let before = segments(b.drop_last());
        let joint = segments(a) + before;
        assert(joint.last() == before.last());
        if b.last() == SEPARATOR {
            assert(joint.push(Seq::<u8>::empty()) =~= segments(a) + before.push(
                Seq::<u8>::empty(),
            ));
        } else {
            assert(joint.drop_last() =~= segments(a) + before.drop_last());
            assert(joint.drop_last().push(joint.last().push(b.last())) =~= segments(a)
                + before.drop_last().push(before.last().push(b.last())));
        }
    }
}

/// The components of two spellings put together behind a separator are the
/// components of the one followed by those of the other.
pub proof fn lemma_components_concat(a: Seq<u8>, b: Seq<u8>)
    ensures
        components(a + seq![SEPARATOR] + b) == components(a) + components(b),
{
    lemma_segments_concat(a, b);
    Seq::filter_distributes_over_add(segments(a), segments(b), |s: Seq<u8>| is_component(s));
}

/// A spelling without a separator is its own only segment.
pub proof fn lemma_segments_single(s: Seq<u8>)
    requires
        !s.contains(SEPARATOR),
    ensures
        segments(s) == seq![s],
    decreases s.len(),
{
    if s.len() > 0 {
        let init = s.drop_last();
        assert(!init.contains(SEPARATOR)) by {
            if init.contains(SEPARATOR) {
                let k = choose|k: int| 0 <= k < init.len() && init[k] == SEPARATOR;
                assert(s[k] == SEPARATOR);
            }
        }
        lemma_segments_single(init);
        assert(s.last() != SEPARATOR) by {
            if s.last() == SEPARATOR {
                assert(s[s.len() - 1] == SEPARATOR);
            }
        }
        assert(seq![init].drop_last().push(seq![init].last().push(s.last())) =~= seq![s]) by {
            assert(init.push(s.last()) =~= s);
        }
    } else {
        assert(s =~= Seq::<u8>::empty());
    }
}

/// Reading a rendered list of valid components gives the list back.
pub proof fn lemma_components_render(parts: Seq<Seq<u8>>)
    requires
        valid_parts(parts),
    ensures
        components(render(parts)) == parts,
        components(spelling(parts)) == parts,
    decreases parts.len(),
{
    let keep = |s: Seq<u8>| is_component(s);
    let nothing = Seq::<u8>::empty();
    if parts.len() == 0 {
        reveal_with_fuel(Seq::filter, 3);
        assert(segments(nothing) =~= seq![nothing]);
        assert(seq![nothing].drop_last() =~= Seq::<Seq<u8>>::empty());
        assert(components(nothing) =~= Seq::<Seq<u8>>::empty());
        let root = seq![SEPARATOR];
        assert(root.drop_last() =~= nothing);
        assert(segments(root) == seq![nothing].push(nothing));
        lemma_filter_push(seq![nothing], nothing);
        assert(components(root) =~= parts);
    } else {
        let init = parts.drop_last();
        let name = parts.last();
        lemma_components_render(init);
        lemma_components_concat(render(init), name);
        lemma_segments_single(name);
        lemma_filter_push(Seq::<Seq<u8>>::empty(), name);
        assert(Seq::<Seq<u8>>::empty().filter(keep) =~= Seq::<Seq<u8>>::empty()) by {
            reveal(Seq::filter);
        }
        assert(seq![name] =~= Seq::<Seq<u8>>::empty().push(name));
        assert(components(name) =~= seq![name]);
        assert(init + seq![name] =~= parts);
    }
}

/// The normal spelling is absolute.
pub proof fn lemma_spelling_absolute(parts: Seq<Seq<u8>>)
    ensures
        is_absolute(spelling(parts)),
    decreases parts.len(),
{
    if parts.len() > 1 {
        lemma_spelling_absolute(parts.drop_last());
    } else if parts.len() == 1 {
        assert(parts.drop_last().len() == 0);
        assert(render(parts.drop_last()) =~= Seq::<u8>::empty());
    }
}

/// Normalizing a normal spelling changes nothing, and the normal spelling of
/// any path is absolute.
pub proof fn lemma_normalize_idempotent(p: Seq<u8>)
    ensures
        normalized(normalized(p)) == normalized(p),
        is_absolute(normalized(p)),
{
    lemma_components_valid(p);
    lemma_components_render(components(p));
    lemma_spelling_absolute(components(p));
}

/// Reading `rel` from an absolute `base` and normalizing gives the components
/// of `base` followed by those of `rel`, unless `rel` is absolute itself.
pub proof fn lemma_components_joined(base: Seq<u8>, rel: Seq<u8>)
    requires
        is_absolute(base),
    ensures
        components(joined(base, rel)) == if is_absolute(rel) {
            components(rel)
        } else {
            components(base) + components(rel)
        },
{
    let keep = |s: Seq<u8>| is_component(s);
    if !is_absolute(rel) {
        if base.last() == SEPARATOR {
            let init = base.drop_last();
            assert(base =~= init + seq![SEPARATOR] + Seq::<u8>::empty());
            assert(base + rel =~= init + seq![SEPARATOR] + rel);
            lemma_components_concat(init, Seq::<u8>::empty());
            lemma_components_concat(init, rel);
            lemma_components_render(Seq::<Seq<u8>>::empty());
            assert(components(Seq::<u8>::empty()) =~= Seq::<Seq<u8>>::empty());
            assert(components(base) =~= components(init));
        } else {
            lemma_components_concat(base, rel);
        }
    }
}

/// Whether the spelling starts at the root.
pub fn is_absolute_path(path: &Vec<u8>) -> (r: bool)
    ensures
        r == is_absolute(path@),
{
    path.len() > 0 && path[0] == SEPARATOR
}

/// Whether two byte strings are equal.
pub fn same_bytes(a: &Vec<u8>, b: &Vec<u8>) -> (r: bool)
    ensures
        r == (a@ == b@),
{
    if a.len() != b.len() {
        return false;
    }
    let mut i: usize = 0;
    while i < a.len()
        invariant
            i <= a.len(),
            a.len() == b.len(),
            forall|k: int| 0 <= k < i ==> a@[k] == b@[k],
        decreases a.len() - i,
    {
        if a[i] != b[i] {
            return false;
        }
        i += 1;
    }
    assert(a@ =~= b@);
    true
}

/// A copy of a byte string.
pub fn copy_bytes(a: &Vec<u8>) -> (r: Vec<u8>)
    ensures
        r@ == a@,
{
    let mut out: Vec<u8> = Vec::new();
    let mut i: usize = 0;
    while i < a.len()
        invariant
            i <= a.len(),
            out@ == a@.take(i as int),
        decreases a.len() - i,
    {
        out.push(a[i]);
        assert(a@.take(i + 1) =~= a@.take(i as int).push(a@[i as int]));
        i += 1;
    }
    assert(a@.take(a.len() as int) =~= a@);
    out
}

fn names_something(s: &Vec<u8>) -> (r: bool)
    ensures
        r == is_component(s@),
{
    if s.len() == 1 && s[0] == DOT {
        assert(s@ =~= seq![DOT]);
        false
    } else {
        assert(s@ != seq![DOT]) by {
            if s@ == seq![DOT] {
                assert(s@.len() == 1 && s@[0] == DOT);
            }
        }
        s.len() > 0
    }
}

/// The components of a spelling, absolute or not.
pub fn split_components(path: &Vec<u8>) -> (parts: Vec<Vec<u8>>)
    ensures
        views(parts@) == components(path@),
        valid_parts(views(parts@)),
{
    let ghost keep = |s: Seq<u8>| is_component(s);
    let mut parts: Vec<Vec<u8>> = Vec::new();
    let mut cur: Vec<u8> = Vec::new();
    let mut i: usize = 0;
    proof {
        reveal(Seq::filter);
        assert(path@.take(0) =~= Seq::<u8>::empty());
        assert(segments(path@.take(0)).drop_last() =~= Seq::<Seq<u8>>::empty());
        assert(views(parts@) =~= Seq::<Seq<u8>>::empty());
    }
    while i < path.len()
        invariant
            i <= path.len(),
            segments(path@.take(i as int)).len() >= 1,
            views(parts@) == segments(path@.take(i as int)).drop_last().filter(keep),
            cur@ == segments(path@.take(i as int)).last(),
            keep == (|s: Seq<u8>| is_component(s)),
        decreases path.len() - i,
    {
        let b = path[i];
        proof {
            let now = path@.take(i + 1);
            assert(now.drop_last() =~= path@.take(i as int));
            assert(now.last() == b);
            let before = segments(path@.take(i as int));
            assert(before =~= before.drop_last().push(before.last()));
            lemma_filter_push(before.drop_last(), before.last());
            if b == SEPARATOR {
                assert(segments(now).drop_last() =~= before);
            } else {
                assert(segments(now).drop_last() =~= before.drop_last());
            }
        }
        if b == SEPARATOR {
            if names_something(&cur) {
                let ghost old_parts = parts@;
                parts.push(cur);
                assert(views(parts@) =~= views(old_parts).push(cur@));
            }
            cur = Vec::new();
        } else {
            cur.push(b);
        }
        i += 1;
    }
    proof {
        assert(path@.take(i as int) =~= path@);
        let all = segments(path@);
        assert(all =~= all.drop_last().push(all.last()));
        lemma_filter_push(all.drop_last(), all.last());
        lemma_components_valid(path@);
    }
    if names_something(&cur) {
        let ghost old_parts = parts@;
        parts.push(cur);
        assert(views(parts@) =~= views(old_parts).push(cur@));
    }
    parts
}

/// The spelling of the absolute path with these components.
pub fn spell(parts: &Vec<Vec<u8>>) -> (out: Vec<u8>)
    ensures
        out@ == spelling(views(parts@)),
{
    let mut out: Vec<u8> = Vec::new();
    if parts.len() == 0 {
        out.push(SEPARATOR);
        assert(out@ =~= seq![SEPARATOR]);
        return out;
    }
    let mut i: usize = 0;
    assert(views(parts@).take(0) =~= Seq::<Seq<u8>>::empty());
    while i < parts.len()
        invariant
            i <= parts.len(),
            out@ == render(views(parts@).take(i as int)),
        decreases parts.len() - i,
    {
        out.push(SEPARATOR);
        let part = &parts[i];
        let ghost head = out@;
        let mut j: usize = 0;
        while j < part.len()
            invariant
                j <= part.len(),
                out@ == head + part@.take(j as int),
            decreases part.len() - j,
        {
            out.push(part[j]);
            assert(part@.take(j + 1) =~= part@.take(j as int).push(part@[j as int]));
            j += 1;
        }
        proof {
            assert(part@.take(part.len() as int) =~= part@);
            let upto = views(parts@).take(i + 1);
            assert(upto.drop_last() =~= views(parts@).take(i as int));
            assert(upto.last() == part@);
        }
        i += 1;
    }
    assert(views(parts@).take(parts.len() as int) =~= views(parts@));
    out
}

/// The normal spelling of an absolute path: one separator before each
/// component, no component `.`, no separator at the end. The root stays the
/// root. Components `..` are kept.
pub fn normalize(path: &Vec<u8>) -> (out: Vec<u8>)
    requires
        is_absolute(path@),
    ensures
        out@ == normalized(path@),
        is_absolute(out@),
        normalized(out@) == out@,
{
    proof {
        lemma_normalize_idempotent(path@);
    }
    let parts = split_components(path);
    spell(&parts)
}

/// `rel` read from `base`: an absolute `rel` stands for itself, any other is
/// appended to `base` behind a separator.
pub fn join(base: &Vec<u8>, rel: &Vec<u8>) -> (out: Vec<u8>)
    ensures
        out@ == joined(base@, rel@),
{
    if is_absolute_path(rel) {
        return copy_bytes(rel);
    }
    let mut out = copy_bytes(base);
    if base.len() > 0 && base[base.len() - 1] != SEPARATOR {
        out.push(SEPARATOR);
    }
    let ghost head = out@;
    let mut j: usize = 0;
    while j < rel.len()
        invariant
            j <= rel.len(),
            out@ == head + rel@.take(j as int),
        decreases rel.len() - j,
    {
        out.push(rel[j]);
        assert(rel@.take(j + 1) =~= rel@.take(j as int).push(rel@[j as int]));
        j += 1;
    }
    assert(rel@.take(rel.len() as int) =~= rel@);
    assert(out@ =~= joined(base@, rel@));
    out
}

/// A copy of a list of byte strings.
fn copy_parts(list: &Vec<Vec<u8>>) -> (r: Vec<Vec<u8>>)
    ensures
        views(r@) == views(list@),
{
    let mut parts: Vec<Vec<u8>> = Vec::new();
    let mut i: usize = 0;
    while i < list.len()
        invariant
            i <= list.len(),
            views(parts@) == views(list@).take(i as int),
        decreases list.len() - i,
    {
        let part = copy_bytes(&list[i]);
        let ghost before = parts@;
        parts.push(part);
        assert(views(parts@) =~= views(before).push(part@));
        assert(views(list@).take(i + 1) =~= views(list@).take(i as int).push(list@[i as int]@));
        i += 1;
    }
    assert(views(parts@) =~= views(list@));
    parts
}

/// An absolute path in normal form, held as its components.
#[derive(Debug)]
pub struct NormalPath {
    parts: Vec<Vec<u8>>,
}

impl View for NormalPath {
    type V = Seq<Seq<u8>>;

    closed spec fn view(&self) -> Seq<Seq<u8>> {
        views(self.parts@)
    }
}

impl Clone for NormalPath {
    fn clone(&self) -> (r: NormalPath)
        ensures
            r@ == self@,
    {
        proof {
            use_type_invariant(self);
        }
        NormalPath { parts: copy_parts(&self.parts) }
    }
}

impl NormalPath {
    /// Every component names something and holds no separator.
    #[verifier::type_invariant]
    pub closed spec fn well_formed(self) -> bool {
        valid_parts(views(self.parts@))
    }

    /// What a well-formed path holds are valid components.
    pub proof fn lemma_well_formed(self)
        requires
            self.well_formed(),
        ensures
            valid_parts(self@),
    {
    }

    /// The root.
    pub fn root() -> (r: NormalPath)
        ensures
            r@ == Seq::<Seq<u8>>::empty(),
    {
        let parts: Vec<Vec<u8>> = Vec::new();
        assert(views(parts@) =~= Seq::<Seq<u8>>::empty());
        NormalPath { parts }
    }

    /// The path that an absolute spelling names.
    pub fn parse(path: &Vec<u8>) -> (r: NormalPath)
        requires
            is_absolute(path@),
        ensures
            r@ == components(path@),
            valid_parts(r@),
    {
        NormalPath { parts: split_components(path) }
    }

    /// The normal spelling.
    pub fn to_bytes(&self) -> (out: Vec<u8>)
        ensures
            out@ == spelling(self@),
            is_absolute(out@),
            components(out@) == self@,
            valid_parts(self@),
    {
        proof {
            use_type_invariant(self);
            lemma_components_render(self@);
            lemma_spelling_absolute(self@);
        }
        spell(&self.parts)
    }

    /// The number of components.
    pub fn depth(&self) -> (n: usize)
        ensures
            n == self@.len(),
    {
        self.parts.len()
    }

    /// Whether this is the root.
    pub fn is_root(&self) -> (r: bool)
        ensures
            r == (self@.len() == 0),
    {
        self.parts.len() == 0
    }

    /// The directory that holds the last component; the root has none.
    pub fn parent(&self) -> (r: Option<NormalPath>)
        ensures
            r.is_some() == parent_of(self@).is_some(),
            r.is_some() ==> r.unwrap()@ == parent_of(self@).unwrap(),
    {
        if self.parts.len() == 0 {
            return None;
        }
        proof {
            use_type_invariant(self);
        }
        let mut parts = copy_parts(&self.parts);
        parts.pop();
        assert(views(parts@) =~= self@.drop_last());
        Some(NormalPath { parts })
    }

    /// The last component, unless it is `..` or the path is the root.
    pub fn file_name(&self) -> (r: Option<Vec<u8>>)
        ensures
            r.is_some() == name_of(self@).is_some(),
            r.is_some() ==> r.unwrap()@ == name_of(self@).unwrap(),
    {
        if self.parts.len() == 0 {
            return None;
        }
        let last = &self.parts[self.parts.len() - 1];
        assert(last@ == self@.last());
        if last.len() == 2 && last[0] == DOT && last[1] == DOT {
            assert(last@ =~= seq![DOT, DOT]);
            return None;
        }
        assert(last@ != seq![DOT, DOT]) by {
            if last@ == seq![DOT, DOT] {
                assert(last@.len() == 2 && last@[0] == DOT && last@[1] == DOT);
            }
        }
        Some(copy_bytes(last))
    }

    /// The target of a symlink that stands at this path and holds `link`. An
    /// absolute link is read by itself, any other from the directory that
    /// holds the symlink; the root, which no directory holds, gives `None`
    /// for such a link.
    pub fn resolve(&self, link: &Vec<u8>) -> (r: Option<NormalPath>)
        ensures
            r.is_some() == resolved(self@, link@).is_some(),
            r.is_some() ==> r.unwrap()@ == resolved(self@, link@).unwrap(),
    {
        let mut tail = split_components(link);
        if is_absolute_path(link) {
            return Some(NormalPath { parts: tail });
        }
        if self.parts.len() == 0 {
            return None;
        }
        proof {
            use_type_invariant(self);
        }
        let mut parts = copy_parts(&self.parts);
        parts.pop();
        let ghost head = self@.drop_last();
        let ghost rest = views(tail@);
        assert(views(parts@) =~= head + rest.take(0));
        let mut i: usize = 0;
        let n = tail.len();
        while i < n
            invariant
                i <= n,
                n == tail.len(),
                rest.len() == n,
                valid_parts(rest),
                valid_parts(head),
                views(parts@) == head + rest.take(i as int),
                forall|k: int| i <= k < n ==> (#[trigger] tail@[k])@ == rest[k],
            decreases n - i,
        {
            let mut part: Vec<u8> = Vec::new();
            assert(tail@[i as int]@ == rest[i as int]);
            core::mem::swap(&mut part, &mut tail[i]);
            let ghost before = parts@;
            parts.push(part);
            assert(views(parts@) =~= views(before).push(part@));
            assert(rest.take(i + 1) =~= rest.take(i as int).push(rest[i as int]));
            assert(views(parts@) =~= head + rest.take(i + 1));
            i += 1;
        }
        assert(rest.take(n as int) =~= rest);
        Some(NormalPath { parts })
    }

    /// Whether two paths are the same path.
    pub fn same(&self, other: &NormalPath) -> (r: bool)
        ensures
            r == (self@ == other@),
    {
        if self.parts.len() != other.parts.len() {
            assert(self@.len() != other@.len());
            return false;
        }
        let mut i: usize = 0;
        while i < self.parts.len()
            invariant
                i <= self.parts.len(),
                self.parts.len() == other.parts.len(),
                self@.len() == self.parts.len(),
                other@.len() == self.parts.len(),
                forall|k: int| 0 <= k < i ==> self@[k] == other@[k],
            decreases self.parts.len() - i,
        {
            if !same_bytes(&self.parts[i], &other.parts[i]) {
                assert(self@[i as int] != other@[i as int]);
                return false;
            }
            i += 1;
        }
        assert(self@ =~= other@);
        true
    }

    /// Whether this path is `other` or a directory on the way from the root
    /// to it.
    pub fn leads_to(&self, other: &NormalPath) -> (r: bool)
        ensures
            r == leads_to(self@, other@),
    {
        if self.parts.len() > other.parts.len() {
            return false;
        }
        let mut i: usize = 0;
        while i < self.parts.len()
            invariant
                i <= self.parts.len(),
                self.parts.len() <= other.parts.len(),
                self@.len() == self.parts.len(),
                other@.len() == other.parts.len(),
                forall|k: int| 0 <= k < i ==> self@[k] == other@[k],
            decreases self.parts.len() - i,
        {
            if !same_bytes(&self.parts[i], &other.parts[i]) {
                assert(other@.take(self@.len() as int)[i as int] != self@[i as int]);
                return false;
            }
            i += 1;
        }
        assert(other@.take(self@.len() as int) =~= self@);
        true
    }

    /// The path itself, then the directory that holds it, and so on up to
    /// the root.
    pub fn ancestors(&self) -> (r: Vec<NormalPath>)
        ensures
            views(r@) == ancestors_of(self@),
    {
        proof {
            use_type_invariant(self);
        }
        let mut out: Vec<NormalPath> = Vec::new();
        let mut parts = copy_parts(&self.parts);
        let n = self.parts.len();
        let mut i: usize = 0;
        assert(self@.take(n as int) =~= self@);
        loop
            invariant
                i <= n,
                n == self.parts.len(),
                self@.len() == n,
                valid_parts(self@),
                views(parts@) == self@.take(n - i),
                out@.len() == i,
                forall|k: int| 0 <= k < i ==> (#[trigger] out@[k])@ == self@.take(n - k),
            decreases n - i,
        {
            let ghost before = out@;
            out.push(NormalPath { parts: copy_parts(&parts) });
            assert(forall|k: int| 0 <= k < i ==> out@[k] == before[k]);
            if i == n {
                assert(views(out@) =~= ancestors_of(self@));
                return out;
            }
            parts.pop();
            assert(views(parts@) =~= self@.take(n - i - 1));
            i += 1;
        }
    }
}

} // verus!
