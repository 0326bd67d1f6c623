//! Photo tags: slugs mapped to the tag's name and the photos tagged with it.
use crate::models::photo::Photo;
use crate::order::{lemma_lex_antisymmetric, lemma_lex_total, lemma_lex_transitive, lex_le, lex_le_exec};
use crate::text::chars_of;
use crate::tools::{slug, slugify};
use vstd::prelude::*;

verus! {

/// Photos to which a tag has been applied.
#[derive(Debug)]
pub struct TagPhotos<T> {
    /// Original tag name (not slug)
    pub name: String,
    /// Photos that have the tag applied, by index or by `PhotoPath`
    pub photos: Vec<T>,
    /// Whether tag has changed since it was last logged
    pub changed: bool,
}

/// Name, photos and change flag of a tag.
pub open spec fn tag_view<T>(t: TagPhotos<T>) -> (Seq<char>, Seq<T>, bool) {
    (t.name@, t.photos@, t.changed)
}

/// Strictly before in lexicographic order.
pub open spec fn lex_lt(a: Seq<char>, b: Seq<char>) -> bool {
    lex_le(a, b) && a != b
}

/// Tag slugs with their tags, in ascending slug order, each slug once.
#[derive(Debug)]
pub struct TagMap<T> {
    pub entries: Vec<(String, TagPhotos<T>)>,
}

impl<T> TagMap<T> {
    /// Slugs ascend strictly.
    pub open spec fn wf(&self) -> bool {
        forall|i: int, j: int|
            0 <= i < j < self.entries@.len() ==> lex_lt(
                #[trigger] self.entries@[i].0@,
                #[trigger] self.entries@[j].0@,
            )
    }

    pub open spec fn has(&self, k: Seq<char>) -> bool {
        exists|i: int| 0 <= i < self.entries@.len() && #[trigger] self.entries@[i].0@ == k
    }

    pub open spec fn index_of(&self, k: Seq<char>) -> int {
        choose|i: int| 0 <= i < self.entries@.len() && #[trigger] self.entries@[i].0@ == k
    }

    /// Slugs mapped to name, photos and change flag.
    pub open spec fn contents(&self) -> Map<Seq<char>, (Seq<char>, Seq<T>, bool)> {
        Map::new(|k: Seq<char>| self.has(k), |k: Seq<char>| tag_view(self.entries@[self.index_of(k)].1))
    }

    /// Each slug stands at one position only.
    pub proof fn lemma_unique(&self, i: int, j: int)
        requires
            self.wf(),
            0 <= i < self.entries@.len(),
            0 <= j < self.entries@.len(),
            self.entries@[i].0@ == self.entries@[j].0@,
        ensures
            i == j,
    {
        if i < j {
            assert(lex_lt(self.entries@[i].0@, self.entries@[j].0@));
        } else if j < i {
            assert(lex_lt(self.entries@[j].0@, self.entries@[i].0@));
        }
    }

    /// What the map holds under the slug at position `i`.
    pub proof fn lemma_at(&self, i: int)
        requires
            self.wf(),
            0 <= i < self.entries@.len(),
        ensures
            self.contents().contains_key(self.entries@[i].0@),
            self.contents()[self.entries@[i].0@] == tag_view(self.entries@[i].1),
    {
        let k = self.entries@[i].0@;
        assert(self.has(k));
        let j = self.index_of(k);
        self.lemma_unique(i, j);
    }

    pub fn new() -> (m: Self)
        ensures
            m.wf(),
            m.entries@.len() == 0,
            m.contents() == Map::<Seq<char>, (Seq<char>, Seq<T>, bool)>::empty(),
    {
        let m = TagMap { entries: Vec::new() };
        assert(m.contents() =~= Map::<Seq<char>, (Seq<char>, Seq<T>, bool)>::empty());
        m
    }

    /// Number of tags.
    pub fn len(&self) -> (n: usize)
        ensures
            n == self.entries@.len(),
    {
        self.entries.len()
    }

    /// Position of slug `k`, if present.
    pub fn find(&self, k: &Vec<char>) -> (r: Option<usize>)
        ensures
            r matches Some(i) ==> i < self.entries@.len() && self.entries@[i as int].0@ == k@,
            r is None ==> !self.has(k@),
    {
        let mut i: usize = 0;
        while i < self.entries.len()
            invariant
                i <= self.entries@.len(),
                forall|j: int| 0 <= j < i ==> self.entries@[j].0@ != k@,
            decreases self.entries.len() - i,
        {
            let key = chars_of(self.entries[i].0.as_str());
            if key.len() == k.len() && crate::text::seq_at_exec(&key, 0, k) {
                assert(key@.subrange(0, k@.len() as int) =~= key@);
                return Some(i);
            }
            proof {
                if key@ == k@ {
                    assert(key@.subrange(0, k@.len() as int) =~= key@);
                }
            }
            i += 1;
        }
        None
    }

    /// Add a tag under a slug that is not yet present.
    pub fn insert_new(&mut self, k: String, v: TagPhotos<T>)
        requires
            old(self).wf(),
            !old(self).has(k@),
        ensures
            final(self).wf(),
            final(self).contents() == old(self).contents().insert(k@, tag_view(v)),
            final(self).entries@.len() == old(self).entries@.len() + 1,
    {
        let key = chars_of(k.as_str());
        let ghost before = self.entries@;
        let mut pos: usize = 0;
        while pos < self.entries.len() && lex_le_exec(&chars_of(self.entries[pos].0.as_str()), &key)
            invariant
                pos <= self.entries@.len(),
                self.entries@ == before,
                key@ == k@,
                forall|j: int| 0 <= j < pos ==> lex_le(#[trigger] before[j].0@, k@),
            decreases self.entries.len() - pos,
        {
            pos += 1;
        }
        let ghost kv = k@;
        assert(pos < before.len() ==> !lex_le(before[pos as int].0@, kv));
        assert(forall|j: int| 0 <= j < before.len() ==> #[trigger] before[j].0@ != kv);
        self.entries.insert(pos, (k, v));
        let ghost after = self.entries@;
        assert(after =~= before.insert(pos as int, after[pos as int]));
        assert(self.wf()) by {
            assert forall|i: int, j: int| 0 <= i < j < after.len() implies lex_lt(
                #[trigger] after[i].0@,
                #[trigger] after[j].0@,
            ) by {
                if j < pos {
                    assert(lex_lt(before[i].0@, before[j].0@));
                } else if i < pos && j == pos {
                    assert(lex_le(before[i].0@, kv));
                } else if i < pos {
                    assert(lex_lt(before[i].0@, before[j - 1].0@));
                } else if i == pos {
                    lemma_lex_total(before[pos as int].0@, kv);
                    if pos < j - 1 {
                        assert(lex_lt(before[pos as int].0@, before[j - 1].0@));
                        lemma_lex_transitive(kv, before[pos as int].0@, before[j - 1].0@);
                        if kv == before[j - 1].0@ {
                            lemma_lex_antisymmetric(kv, before[pos as int].0@);
                        }
                    }
                } else {
                    assert(lex_lt(before[i - 1].0@, before[j - 1].0@));
                }
            }
        }
        assert(self.contents() =~= old(self).contents().insert(kv, tag_view(v))) by {
            assert forall|q: Seq<char>| #[trigger] self.contents().contains_key(q) == old(self).contents().insert(kv, tag_view(v)).contains_key(q) by {
                if self.has(q) {
                    let i = choose|i: int| 0 <= i < after.len() && #[trigger] after[i].0@ == q;
                    if i < pos {
                        assert(old(self).entries@[i].0@ == q);
                    } else if i > pos {
                        assert(old(self).entries@[i - 1].0@ == q);
                    }
                }
                if old(self).has(q) {
                    let i = choose|i: int| 0 <= i < before.len() && #[trigger] before[i].0@ == q;
                    if i < pos {
                        assert(after[i].0@ == q);
                    } else {
                        assert(after[i + 1].0@ == q);
                    }
                }
                if q == kv {
                    assert(after[pos as int].0@ == q);
                }
            }
            assert forall|q: Seq<char>| #[trigger] self.contents().contains_key(q) implies self.contents()[q] == old(self).contents().insert(kv, tag_view(v))[q] by {
                let i = choose|i: int| 0 <= i < after.len() && #[trigger] after[i].0@ == q;
                self.lemma_at(i);
                if i < pos {
                    old(self).lemma_at(i);
                } else if i > pos {
                    old(self).lemma_at(i - 1);
                }
            }
        }
    }

    /// Add photo `x` to the tag at position `i`.
    pub fn push_photo(&mut self, i: usize, x: T)
        requires
            old(self).wf(),
            i < old(self).entries@.len(),
        ensures
            final(self).wf(),
            final(self).entries@.len() == old(self).entries@.len(),
            forall|j: int| 0 <= j < final(self).entries@.len() ==> #[trigger] final(self).entries@[j].0@ == old(self).entries@[j].0@,
            final(self).contents() == old(self).contents().insert(
                old(self).entries@[i as int].0@,
                (
                    old(self).entries@[i as int].1.name@,
                    old(self).entries@[i as int].1.photos@.push(x),
                    old(self).entries@[i as int].1.changed,
                ),
            ),
    {
        let ghost before = self.entries@;
        let (k, mut tp) = self.entries.remove(i);
        tp.photos.push(x);
        self.entries.insert(i, (k, tp));
        let ghost after = self.entries@;
        assert(after =~= before.update(i as int, after[i as int]));
        assert(forall|j: int| 0 <= j < after.len() ==> #[trigger] after[j].0@ == before[j].0@);
        proof {
            lemma_replace(*old(self), *self, i as int);
        }
    }

    /// Set the change flag of the tag at position `i`.
    pub fn set_changed(&mut self, i: usize, changed: bool)
        requires
            old(self).wf(),
            i < old(self).entries@.len(),
        ensures
            final(self).wf(),
            final(self).entries@.len() == old(self).entries@.len(),
            forall|j: int| 0 <= j < final(self).entries@.len() ==> #[trigger] final(self).entries@[j].0@ == old(self).entries@[j].0@,
            forall|j: int| 0 <= j < final(self).entries@.len() && j != i ==> #[trigger] final(self).entries@[j] == old(self).entries@[j],
            tag_view(final(self).entries@[i as int].1) == (
                old(self).entries@[i as int].1.name@,
                old(self).entries@[i as int].1.photos@,
                changed,
            ),
            final(self).contents() == old(self).contents().insert(
                old(self).entries@[i as int].0@,
                (
                    old(self).entries@[i as int].1.name@,
                    old(self).entries@[i as int].1.photos@,
                    changed,
                ),
            ),
    {
        let ghost before = self.entries@;
        let (k, mut tp) = self.entries.remove(i);
        tp.changed = changed;
        self.entries.insert(i, (k, tp));
        let ghost after = self.entries@;
        assert(after =~= before.update(i as int, after[i as int]));
        assert(forall|j: int| 0 <= j < after.len() ==> #[trigger] after[j].0@ == before[j].0@);
        proof {
            lemma_replace(*old(self), *self, i as int);
        }
    }

}

impl<T: Copy> TagMap<T> {
    /// A copy of the map.
    pub fn duplicate(&self) -> (m: Self)
        ensures
            m.entries@.len() == self.entries@.len(),
            forall|j: int| 0 <= j < m.entries@.len() ==> #[trigger] m.entries@[j].0@ == self.entries@[j].0@
                && tag_view(m.entries@[j].1) == tag_view(self.entries@[j].1),
            self.wf() ==> m.wf(),
            self.wf() ==> m.contents() == self.contents(),
    {
        let mut entries: Vec<(String, TagPhotos<T>)> = Vec::new();
        let mut i: usize = 0;
        while i < self.entries.len()
            invariant
                i <= self.entries@.len(),
                entries@.len() == i,
                forall|j: int| 0 <= j < i ==> (#[trigger] entries@[j]).0@ == self.entries@[j].0@,
                forall|j: int| 0 <= j < i ==> tag_view((#[trigger] entries@[j]).1) == tag_view(self.entries@[j].1),
            decreases self.entries.len() - i,
        {
            let e = &self.entries[i];
            let mut photos: Vec<T> = Vec::new();
            let mut k: usize = 0;
            while k < e.1.photos.len()
                invariant
                    k <= e.1.photos@.len(),
                    photos@ == e.1.photos@.take(k as int),
                decreases e.1.photos.len() - k,
            {
                photos.push(e.1.photos[k]);
                assert(e.1.photos@.take(k + 1) =~= e.1.photos@.take(k as int).push(e.1.photos@[k as int]));
                k += 1;
            }
            assert(e.1.photos@.take(k as int) =~= e.1.photos@);
            let name = e.1.name.clone();
            let key = e.0.clone();
            assert(name@ == e.1.name@ && key@ == e.0@);
            let tp = TagPhotos { name, photos, changed: e.1.changed };
            assert(tag_view(tp) == tag_view(e.1));
            let ghost before = entries@;
            entries.push((key, tp));
            assert(entries@[i as int].1 == tp);
            assert(entries@ =~= before.push((key, tp)));
            i += 1;
        }
        let m = TagMap { entries };
        proof {
            if self.wf() {
                assert(m.wf());
                assert forall|k: Seq<char>| #[trigger] m.has(k) == self.has(k) by {
                    if m.has(k) {
                        let j = choose|j: int| 0 <= j < m.entries@.len() && #[trigger] m.entries@[j].0@ == k;
                        assert(self.entries@[j].0@ == k);
                    }
                    if self.has(k) {
                        let j = choose|j: int| 0 <= j < self.entries@.len() && #[trigger] self.entries@[j].0@ == k;
                        assert(m.entries@[j].0@ == k);
                    }
                }
                assert forall|k: Seq<char>| #[trigger] m.contents().contains_key(k) implies m.contents()[k]
                    == self.contents()[k] by {
                    let j = choose|j: int| 0 <= j < m.entries@.len() && #[trigger] m.entries@[j].0@ == k;
                    m.lemma_at(j);
                    self.lemma_at(j);
                }
                assert(m.contents() =~= self.contents());
            }
        }
        m
    }
}

/// Replacing the tag at one position, under the same slug, changes the
/// contents under that slug only.
pub proof fn lemma_replace<T>(m: TagMap<T>, n: TagMap<T>, i: int)
    requires
        m.wf(),
        0 <= i < m.entries@.len(),
        n.entries@ == m.entries@.update(i, n.entries@[i]),
        n.entries@[i].0@ == m.entries@[i].0@,
    ensures
        n.wf(),
        n.contents() == m.contents().insert(m.entries@[i].0@, tag_view(n.entries@[i].1)),
{
    let k = m.entries@[i].0@;
    assert forall|a: int, b: int| 0 <= a < b < n.entries@.len() implies lex_lt(
        #[trigger] n.entries@[a].0@,
        #[trigger] n.entries@[b].0@,
    ) by {
        assert(lex_lt(m.entries@[a].0@, m.entries@[b].0@));
    }
    assert forall|q: Seq<char>| #[trigger] n.has(q) == m.has(q) by {
        if n.has(q) {
            let j = choose|j: int| 0 <= j < n.entries@.len() && #[trigger] n.entries@[j].0@ == q;
            assert(m.entries@[j].0@ == q);
        }
        if m.has(q) {
            let j = choose|j: int| 0 <= j < m.entries@.len() && #[trigger] m.entries@[j].0@ == q;
            assert(n.entries@[j].0@ == q);
        }
    }
    assert(n.contents() =~= m.contents().insert(k, tag_view(n.entries@[i].1))) by {
        assert forall|q: Seq<char>| #[trigger] n.contents().contains_key(q) implies n.contents()[q]
            == m.contents().insert(k, tag_view(n.entries@[i].1))[q] by {
            let j = choose|j: int| 0 <= j < n.entries@.len() && #[trigger] n.entries@[j].0@ == q;
            n.lemma_at(j);
            if j != i {
                m.lemma_at(j);
                if q == k {
                    m.lemma_unique(i, j);
                }
            }
        }
        assert(n.has(k)) by {
            assert(n.entries@[i].0@ == k);
        }
    }
}


/// Each tag use of a photo: the tag's slug, the tag and the photo's index.
pub open spec fn photo_tag_uses(p: Photo) -> Seq<(Seq<char>, Seq<char>, u8)> {
    p.tags@.map_values(|t: String| (slug(t@), t@, p.index))
}

/// Every tag use of the photos, photo by photo and tag by tag.
pub open spec fn tag_uses(photos: Seq<Photo>) -> Seq<(Seq<char>, Seq<char>, u8)>
    decreases photos.len(),
{
    if photos.len() == 0 {
        Seq::empty()
    } else {
        tag_uses(photos.drop_last()) + photo_tag_uses(photos.last())
    }
}

/// Slugs of tag uses mapped to the first tag with that slug, the indices of
/// the photos using it in order, and an unchanged flag.
pub open spec fn collate(uses: Seq<(Seq<char>, Seq<char>, u8)>) -> Map<
    Seq<char>,
    (Seq<char>, Seq<u8>, bool),
>
    decreases uses.len(),
{
    if uses.len() == 0 {
        Map::empty()
    } else {
        let m = collate(uses.drop_last());
        let u = uses.last();
        if m.contains_key(u.0) {
            m.insert(u.0, (m[u.0].0, m[u.0].1.push(u.2), false))
        } else {
            m.insert(u.0, (u.1, seq![u.2], false))
        }
    }
}

/// Collated tags are all marked unchanged.
pub proof fn lemma_collate_unchanged(uses: Seq<(Seq<char>, Seq<char>, u8)>, k: Seq<char>)
    requires
        collate(uses).contains_key(k),
    ensures
        !collate(uses)[k].2,
    decreases uses.len(),
{
    if uses.len() > 0 && k != uses.last().0 {
        lemma_collate_unchanged(uses.drop_last(), k);
    }
}

/// A collated slug lists the photo of every use of it.
proof fn lemma_collate_keeps(uses: Seq<(Seq<char>, Seq<char>, u8)>, u: (Seq<char>, Seq<char>, u8))
    requires
        uses.contains(u),
    ensures
        collate(uses).contains_key(u.0),
        collate(uses)[u.0].1.contains(u.2),
    decreases uses.len(),
{
    let init = uses.drop_last();
    let last = uses.last();
    let m = collate(init);
    if last == u {
        if m.contains_key(u.0) {
            assert(m[u.0].1.push(u.2)[m[u.0].1.len() as int] == u.2);
        } else {
            assert(seq![u.2][0] == u.2);
        }
    } else {
        let n = choose|n: int| 0 <= n < uses.len() && uses[n] == u;
        assert(init[n] == u);
        lemma_collate_keeps(init, u);
        if last.0 == u.0 {
            let t = choose|t: int| 0 <= t < m[u.0].1.len() && m[u.0].1[t] == u.2;
            assert(m[u.0].1.push(last.2)[t] == u.2);
        }
    }
}

/// The tag uses of the photos include each tag of each photo.
proof fn lemma_tag_uses_has(photos: Seq<Photo>, j: int, t: int)
    requires
        0 <= j < photos.len(),
        0 <= t < photos[j].tags@.len(),
    ensures
        tag_uses(photos).contains(photo_tag_uses(photos[j])[t]),
    decreases photos.len(),
{
    let init = tag_uses(photos.drop_last());
    let last = photo_tag_uses(photos.last());
    if j == photos.len() - 1 {
        assert((init + last)[init.len() + t] == last[t]);
    } else {
        assert(photos.drop_last()[j] == photos[j]);
        lemma_tag_uses_has(photos.drop_last(), j, t);
        let n = choose|n: int| 0 <= n < init.len() && init[n] == photo_tag_uses(photos[j])[t];
        assert((init + last)[n] == init[n]);
    }
}

/// Every tag of every photo is collated under the tag's slug, listing the
/// photo's index.
pub proof fn lemma_collate_covers(photos: Seq<Photo>, j: int, t: int)
    requires
        0 <= j < photos.len(),
        0 <= t < photos[j].tags@.len(),
    ensures
        collate(tag_uses(photos)).contains_key(slug(photos[j].tags@[t]@)),
        collate(tag_uses(photos))[slug(photos[j].tags@[t]@)].1.contains(photos[j].index),
{
    lemma_tag_uses_has(photos, j, t);
    lemma_collate_keeps(tag_uses(photos), photo_tag_uses(photos[j])[t]);
}

/// Collect unique photo tag slugs as keys to the list of photos that applied
/// those tags.
pub fn collate_tags(photos: &Vec<Photo>) -> (tags: TagMap<u8>)
    ensures
        tags.wf(),
        tags.contents() == collate(tag_uses(photos@)),
{
    let mut tags: TagMap<u8> = TagMap::new();
    let mut p: usize = 0;
    while p < photos.len()
        invariant
            p <= photos.len(),
            tags.wf(),
            tags.contents() == collate(tag_uses(photos@.take(p as int))),
        decreases photos.len() - p,
    {
        let photo = &photos[p];
        let ghost prefix = tag_uses(photos@.take(p as int));
        let ghost uses = photo_tag_uses(*photo);
        let mut t: usize = 0;
        assert(uses.take(0) =~= Seq::<(Seq<char>, Seq<char>, u8)>::empty());
        assert(prefix + uses.take(0) =~= prefix);
        while t < photo.tags.len()
            invariant
                t <= photo.tags.len(),
                uses == photo_tag_uses(*photo),
                tags.wf(),
                tags.contents() == collate(prefix + uses.take(t as int)),
            decreases photo.tags.len() - t,
        {
            let tag = &photo.tags[t];
            let slug_text = slugify(tag.as_str());
            let key = chars_of(slug_text.as_str());
            let ghost u = uses[t as int];
            assert(u == (slug(tag@), tag@, photo.index));
            assert((prefix + uses.take(t + 1)).drop_last() =~= prefix + uses.take(t as int));
            assert((prefix + uses.take(t + 1)).last() == u);
            match tags.find(&key) {
                Some(i) => {
                    proof {
                        tags.lemma_at(i as int);
                        lemma_collate_unchanged(prefix + uses.take(t as int), key@);
                    }
                    tags.push_photo(i, photo.index);
                },
                None => {
                    let mut list = Vec::new();
                    list.push(photo.index);
                    let tp = TagPhotos { name: tag.clone(), photos: list, changed: false };
                    assert(list@ =~= seq![photo.index]);
                    tags.insert_new(slug_text, tp);
                },
            }
            t += 1;
        }
        assert(uses.take(photo.tags.len() as int) =~= uses);
        assert(photos@.take(p + 1).drop_last() =~= photos@.take(p as int));
        assert(photos@.take(p + 1).last() == photos@[p as int]);
        p += 1;
    }
    assert(photos@.take(photos.len() as int) =~= photos@);
    tags
}

} // verus!
