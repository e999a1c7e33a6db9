//! The persistent store: one record per identity key.
//!
//! The store is modelled as a map from key to record. In memory it is a
//! list of records kept strictly ascending by key, so that equal stores
//! have equal lists and the list is at once the form in which the store is
//! written out.

use crate::devto_api::Article;
use crate::projection::{
    is_ranked, listed_before, lists_key, select_ranked, shown_before, standing, standing_of, Standing,
};
use crate::rank::holds;
use crate::retention::{fresh_record, is_pruned, select_retained, stays_before, stays_longer};
use crate::text::{
    chars_of, copy_opt, copy_texts, decimal, decimal_string, lemma_lex_irreflexive,
    lemma_lex_total, lemma_lex_transitive, lex_lt, opt_text, split, str_lt, string_of, texts,
    trim_bounds, trimmed,
};
use crate::time::{parsed_opt, parsed_time, rfc3339_text, Timestamp, UtcTime};
use vstd::prelude::*;

verus! {

/// A stored record: an article as it was last seen, under its key.
#[derive(Debug, Clone, PartialEq, Eq)]
pub struct StoredArticle {
    pub key: String,
    pub id: Option<u64>,
    pub canonical_url: Option<String>,
    pub url: Option<String>,
    pub title: String,
    pub description: Option<String>,
    pub published_timestamp: Option<String>,
    pub published_at: Option<String>,
    pub edited_at: Option<String>,
    pub public_reactions_count: u32,
    pub positive_reactions_count: u32,
    pub tag_list: Vec<String>,
    pub user_name: Option<String>,
    pub user_username: Option<String>,
    pub last_seen: String,
}

/// What a stored record holds, with each string as its characters.
pub struct StoredArticleView {
    pub key: Seq<char>,
    pub id: Option<u64>,
    pub canonical_url: Option<Seq<char>>,
    pub url: Option<Seq<char>>,
    pub title: Seq<char>,
    pub description: Option<Seq<char>>,
    pub published_timestamp: Option<Seq<char>>,
    pub published_at: Option<Seq<char>>,
    pub edited_at: Option<Seq<char>>,
    pub public_reactions_count: u32,
    pub positive_reactions_count: u32,
    pub tag_list: Seq<Seq<char>>,
    pub user_name: Option<Seq<char>>,
    pub user_username: Option<Seq<char>>,
    pub last_seen: Seq<char>,
}

impl View for StoredArticle {
    type V = StoredArticleView;

    open spec fn view(&self) -> StoredArticleView {
        StoredArticleView {
            key: self.key@,
            id: self.id,
            canonical_url: opt_text(self.canonical_url),
            url: opt_text(self.url),
            title: self.title@,
            description: opt_text(self.description),
            published_timestamp: opt_text(self.published_timestamp),
            published_at: opt_text(self.published_at),
            edited_at: opt_text(self.edited_at),
            public_reactions_count: self.public_reactions_count,
            positive_reactions_count: self.positive_reactions_count,
            tag_list: texts(self.tag_list@),
            user_name: opt_text(self.user_name),
            user_username: opt_text(self.user_username),
            last_seen: self.last_seen@,
        }
    }
}

impl StoredArticle {
    /// A copy of this record.
    pub fn duplicate(&self) -> (r: StoredArticle)
        ensures
            r@ == self@,
    {
        StoredArticle {
            key: self.key.clone(),
            id: self.id,
            canonical_url: copy_opt(&self.canonical_url),
            url: copy_opt(&self.url),
            title: self.title.clone(),
            description: copy_opt(&self.description),
            published_timestamp: copy_opt(&self.published_timestamp),
            published_at: copy_opt(&self.published_at),
            edited_at: copy_opt(&self.edited_at),
            public_reactions_count: self.public_reactions_count,
            positive_reactions_count: self.positive_reactions_count,
            tag_list: copy_texts(&self.tag_list),
            user_name: copy_opt(&self.user_name),
            user_username: copy_opt(&self.user_username),
            last_seen: self.last_seen.clone(),
        }
    }
}

// ---------------------------------------------------------------------------
// Identity
// ---------------------------------------------------------------------------

/// The key under which an article is stored: the decimal numeral of its
/// numeric identifier if it has one, else its canonical URL, else none.
pub open spec fn key_of(article: Article) -> Option<Seq<char>> {
    match article.id {
        Some(id) => Some(decimal(id as nat)),
        None => opt_text(article.canonical_url),
    }
}

/// The key under which `article` is stored, if it has one.
pub fn article_key(article: &Article) -> (key: Option<String>)
    ensures
        opt_text(key) == key_of(*article),
{
    match article.id {
        Some(id) => Some(decimal_string(id)),
        None => copy_opt(&article.canonical_url),
    }
}

// ---------------------------------------------------------------------------
// Tags
// ---------------------------------------------------------------------------

/// The pieces that remain as tags: each piece trimmed, the empty ones
/// dropped, the order kept.
pub open spec fn kept_pieces(pieces: Seq<Seq<char>>) -> Seq<Seq<char>>
    decreases pieces.len(),
{
    if pieces.len() == 0 {
        Seq::<Seq<char>>::empty()
    } else {
        let head = kept_pieces(pieces.drop_last());
        let piece = trimmed(pieces.last());
        if piece.len() > 0 {
            head.push(piece)
        } else {
            head
        }
    }
}

/// The tags that a comma-separated tag text names; none where there is no
/// text.
pub open spec fn tags_of(text: Option<Seq<char>>) -> Seq<Seq<char>> {
    match text {
        Some(t) => kept_pieces(split(t, ',')),
        None => Seq::<Seq<char>>::empty(),
    }
}

/// Adds the piece `v[from..to]` to `out` if anything is left of it once
/// trimmed.
fn keep_piece(out: &mut Vec<String>, v: &Vec<char>, from: usize, to: usize)
    requires
        from <= to <= v.len(),
    ensures
        texts(final(out)@) == ({
            let piece = trimmed(v@.subrange(from as int, to as int));
            if piece.len() > 0 {
                texts(old(out)@).push(piece)
            } else {
                texts(old(out)@)
            }
        }),
{
    let (lo, hi) = trim_bounds(v, from, to);
    if lo < hi {
        let piece = string_of(v, lo, hi);
        out.push(piece);
        assert(texts(out@) =~= texts(old(out)@).push(piece@));
    }
}

/// Splits a tag text on commas, trims each piece and drops the empty ones.
pub fn parse_tag_list(value: &Option<String>) -> (tags: Vec<String>)
    ensures
        texts(tags@) == tags_of(opt_text(*value)),
{
    let mut out: Vec<String> = Vec::new();
    match value {
        None => {
            assert(texts(out@) =~= Seq::<Seq<char>>::empty());
        },
        Some(text) => {
            let v = chars_of(text.as_str());
            let n = v.len();
            let mut start: usize = 0;
            let mut i: usize = 0;
            let ghost mut done: Seq<Seq<char>> = Seq::empty();
            assert(texts(out@) =~= kept_pieces(done));
            assert(v@.take(0) =~= Seq::<char>::empty());
            assert(split(v@.take(0), ',') =~= done.push(v@.subrange(0, 0)));
            while i < n
                invariant
                    n == v.len(),
                    start <= i <= n,
                    split(v@.take(i as int), ',') == done.push(
                        v@.subrange(start as int, i as int),
                    ),
                    texts(out@) == kept_pieces(done),
                decreases n - i,
            {
                let ghost piece = v@.subrange(start as int, i as int);
                proof {
                    assert(v@.take(i + 1).drop_last() =~= v@.take(i as int));
                    assert(v@.take(i + 1).last() == v@[i as int]);
                }
                if v[i] == ',' {
                    keep_piece(&mut out, &v, start, i);
                    proof {
                        assert(done.push(piece).drop_last() =~= done);
                        done = done.push(piece);
                        assert(v@.subrange(i + 1, i + 1) =~= Seq::<char>::empty());
                    }
                    start = i + 1;
                } else {
                    proof {
                        assert(piece.push(v@[i as int]) =~= v@.subrange(start as int, i + 1));
                        assert(done.push(piece).last() == piece);
                        assert(done.push(piece).update(done.len() as int, piece.push(v@[i as int]))
                            =~= done.push(v@.subrange(start as int, i + 1)));
                    }
                }
                i += 1;
            }
            keep_piece(&mut out, &v, start, n);
            proof {
                let piece = v@.subrange(start as int, n as int);
                assert(v@.take(n as int) =~= v@);
                assert(done.push(piece).drop_last() =~= done);
            }
        },
    }
    out
}

// ---------------------------------------------------------------------------
// The model of the store
// ---------------------------------------------------------------------------

/// The views of a list of records.
pub open spec fn views(items: Seq<StoredArticle>) -> Seq<StoredArticleView> {
    Seq::new(items.len(), |i: int| items[i]@)
}

/// Whether a list of records is strictly ascending by key.
pub open spec fn sorted_by_key(s: Seq<StoredArticleView>) -> bool {
    forall|i: int, j: int| 0 <= i < j < s.len() ==> lex_lt(#[trigger] s[i].key, #[trigger] s[j].key)
}

/// Whether a list of records has one with the key `k`.
pub open spec fn has_key(s: Seq<StoredArticleView>, k: Seq<char>) -> bool {
    exists|i: int| 0 <= i < s.len() && (#[trigger] s[i]).key == k
}

/// The store that a list of records makes: each record is entered under
/// its own key, in the order of the list, and a later record replaces an
/// earlier one of the same key.
pub open spec fn loaded(s: Seq<StoredArticleView>) -> Map<Seq<char>, StoredArticleView>
    decreases s.len(),
{
    if s.len() == 0 {
        Map::empty()
    } else {
        loaded(s.drop_last()).insert(s.last().key, s.last())
    }
}

/// The keys of a loaded store are the keys of the list.
pub proof fn lemma_loaded_keys(s: Seq<StoredArticleView>, k: Seq<char>)
    ensures
        loaded(s).contains_key(k) <==> has_key(s, k),
    decreases s.len(),
{
    if s.len() > 0 {
        let t = s.drop_last();
        lemma_loaded_keys(t, k);
        if has_key(s, k) {
            let i = choose|i: int| 0 <= i < s.len() && (#[trigger] s[i]).key == k;
            if i < t.len() {
                assert(t[i].key == k);
            }
        }
        if loaded(s).contains_key(k) && k != s.last().key {
            let i = choose|i: int| 0 <= i < t.len() && (#[trigger] t[i]).key == k;
            assert(s[i].key == k);
        }
        if k == s.last().key {
            assert(s[s.len() - 1].key == k);
        }
    }
}

/// Under each key of a strictly ascending list, the loaded store holds the
/// record of the list that has this key.
pub proof fn lemma_loaded_value(s: Seq<StoredArticleView>, i: int)
    requires
        sorted_by_key(s),
        0 <= i < s.len(),
    ensures
        loaded(s).contains_key(s[i].key),
        loaded(s)[s[i].key] == s[i],
    decreases s.len(),
{
    let t = s.drop_last();
    if i < s.len() - 1 {
        lemma_sorted_drop_last(s);
        lemma_loaded_value(t, i);
        assert(t[i] == s[i]);
        assert(lex_lt(s[i].key, s[s.len() - 1].key));
        lemma_lex_irreflexive(s[i].key);
    }
}

/// A loaded store has finitely many keys, and as many as the list has
/// records when the list is strictly ascending.
pub proof fn lemma_loaded_len(s: Seq<StoredArticleView>)
    ensures
        loaded(s).dom().finite(),
        sorted_by_key(s) ==> loaded(s).len() == s.len(),
    decreases s.len(),
{
    if s.len() > 0 {
        let t = s.drop_last();
        lemma_loaded_len(t);
        assert(loaded(s).dom() =~= loaded(t).dom().insert(s.last().key));
        if sorted_by_key(s) {
            lemma_sorted_drop_last(s);
            lemma_loaded_keys(t, s.last().key);
            if has_key(t, s.last().key) {
                let i = choose|i: int| 0 <= i < t.len() && (#[trigger] t[i]).key == s.last().key;
                assert(lex_lt(s[i].key, s[s.len() - 1].key));
                lemma_lex_irreflexive(s[i].key);
            }
        }
    }
}

/// A strictly ascending list without its last record is strictly ascending.
proof fn lemma_sorted_drop_last(s: Seq<StoredArticleView>)
    requires
        sorted_by_key(s),
        s.len() > 0,
    ensures
        sorted_by_key(s.drop_last()),
{
    let t = s.drop_last();
    assert forall|a: int, b: int| 0 <= a < b < t.len() implies lex_lt(
        #[trigger] t[a].key,
        #[trigger] t[b].key,
    ) by {
        assert(lex_lt(s[a].key, s[b].key));
    }
}

/// In a strictly ascending list, the key of the last record is not a key
/// of the records before it, so the store of those records is the store of
/// the list without that key.
proof fn lemma_loaded_drop_last(s: Seq<StoredArticleView>)
    requires
        sorted_by_key(s),
        s.len() > 0,
    ensures
        !loaded(s.drop_last()).contains_key(s.last().key),
        loaded(s.drop_last()) == loaded(s).remove(s.last().key),
{
    let t = s.drop_last();
    let k = s.last().key;
    lemma_loaded_keys(t, k);
    if has_key(t, k) {
        let i = choose|i: int| 0 <= i < t.len() && (#[trigger] t[i]).key == k;
        assert(lex_lt(s[i].key, s[s.len() - 1].key));
        lemma_lex_irreflexive(s[i].key);
    }
    assert(loaded(t) =~= loaded(t).insert(k, s.last()).remove(k));
}

/// Two strictly ascending lists that make the same store end in the same
/// record: the one with the greatest key of the store.
proof fn lemma_same_last(s: Seq<StoredArticleView>, t: Seq<StoredArticleView>)
    requires
        sorted_by_key(s),
        sorted_by_key(t),
        loaded(s) == loaded(t),
        s.len() > 0,
    ensures
        t.len() == s.len(),
        t.last() == s.last(),
{
    lemma_loaded_len(s);
    lemma_loaded_len(t);
    let n = s.len() - 1;
    lemma_loaded_value(s, n);
    lemma_loaded_value(t, n);
    lemma_loaded_keys(t, s[n].key);
    lemma_loaded_keys(s, t[n].key);
    let i = choose|i: int| 0 <= i < t.len() && (#[trigger] t[i]).key == s[n].key;
    let j = choose|j: int| 0 <= j < s.len() && (#[trigger] s[j]).key == t[n].key;
    if i < n {
        assert(lex_lt(t[i].key, t[n].key));
        if j < n {
            assert(lex_lt(s[j].key, s[n].key));
            lemma_lex_transitive(s[n].key, t[n].key, s[n].key);
        }
        lemma_lex_irreflexive(s[n].key);
    }
}

/// Two strictly ascending lists that make the same store are the same
/// list: what is written out depends on the content of the store alone.
pub proof fn lemma_sorted_unique(s: Seq<StoredArticleView>, t: Seq<StoredArticleView>)
    requires
        sorted_by_key(s),
        sorted_by_key(t),
        loaded(s) == loaded(t),
    ensures
        s == t,
    decreases s.len(),
{
    lemma_loaded_len(s);
    lemma_loaded_len(t);
    if s.len() > 0 {
        lemma_same_last(s, t);
        lemma_sorted_drop_last(s);
        lemma_sorted_drop_last(t);
        lemma_loaded_drop_last(s);
        lemma_loaded_drop_last(t);
        lemma_sorted_unique(s.drop_last(), t.drop_last());
        assert(s =~= s.drop_last().push(s.last()));
        assert(t =~= t.drop_last().push(t.last()));
    } else {
        assert(s =~= t);
    }
}

/// A store that is written out as its strictly ascending list and loaded
/// again is the same store: it has as many records as the list, it has
/// the keys of the list and no others, and under each key it holds the
/// record of the list, field for field.
pub proof fn lemma_round_trip(s: Seq<StoredArticleView>)
    requires
        sorted_by_key(s),
    ensures
        loaded(s).dom().finite(),
        loaded(s).len() == s.len(),
        forall|k: Seq<char>| #[trigger] loaded(s).contains_key(k) <==> has_key(s, k),
        forall|i: int|
            0 <= i < s.len() ==> loaded(s).contains_key((#[trigger] s[i]).key) && loaded(s)[s[i].key]
                == s[i],
{
    lemma_loaded_len(s);
    assert forall|k: Seq<char>| #[trigger] loaded(s).contains_key(k) <==> has_key(s, k) by {
        lemma_loaded_keys(s, k);
    }
    assert forall|i: int| 0 <= i < s.len() implies loaded(s).contains_key((#[trigger] s[i]).key)
        && loaded(s)[s[i].key] == s[i] by {
        lemma_loaded_value(s, i);
    }
}

/// Replacing a record of a strictly ascending list by one of the same key
/// enters that record into the store.
proof fn lemma_update(s: Seq<StoredArticleView>, p: int, x: StoredArticleView)
    requires
        sorted_by_key(s),
        0 <= p < s.len(),
        s[p].key == x.key,
    ensures
        sorted_by_key(s.update(p, x)),
        loaded(s.update(p, x)) == loaded(s).insert(x.key, x),
{
    let s2 = s.update(p, x);
    assert(sorted_by_key(s2)) by {
        assert forall|a: int, b: int| 0 <= a < b < s2.len() implies lex_lt(
            #[trigger] s2[a].key,
            #[trigger] s2[b].key,
        ) by {
            assert(lex_lt(s[a].key, s[b].key));
        }
    }
    let m = loaded(s).insert(x.key, x);
    assert forall|k: Seq<char>| loaded(s2).contains_key(k) <==> m.contains_key(k) by {
        lemma_loaded_keys(s2, k);
        lemma_loaded_keys(s, k);
        if has_key(s2, k) {
            let i = choose|i: int| 0 <= i < s2.len() && (#[trigger] s2[i]).key == k;
            assert(s[i].key == k);
        }
        if has_key(s, k) {
            let i = choose|i: int| 0 <= i < s.len() && (#[trigger] s[i]).key == k;
            assert(s2[i].key == k);
        }
        if k == x.key {
            assert(s2[p].key == k);
        }
    }
    assert forall|k: Seq<char>| loaded(s2).contains_key(k) implies loaded(s2)[k] == m[k] by {
        lemma_loaded_keys(s2, k);
        let i = choose|i: int| 0 <= i < s2.len() && (#[trigger] s2[i]).key == k;
        lemma_loaded_value(s2, i);
        if i != p {
            lemma_loaded_value(s, i);
            if i < p {
                assert(lex_lt(s[i].key, s[p].key));
            } else {
                assert(lex_lt(s[p].key, s[i].key));
            }
            lemma_lex_irreflexive(s[i].key);
        }
    }
    assert(loaded(s2) =~= m);
}

/// Putting a record into a strictly ascending list at the place its key
/// asks for enters that record into the store.
proof fn lemma_insert(s: Seq<StoredArticleView>, p: int, x: StoredArticleView)
    requires
        sorted_by_key(s),
        0 <= p <= s.len(),
        forall|i: int| 0 <= i < p ==> lex_lt((#[trigger] s[i]).key, x.key),
        forall|i: int| p <= i < s.len() ==> lex_lt(x.key, (#[trigger] s[i]).key),
    ensures
        sorted_by_key(s.insert(p, x)),
        loaded(s.insert(p, x)) == loaded(s).insert(x.key, x),
{
    let s2 = s.insert(p, x);
    assert(sorted_by_key(s2)) by {
        assert forall|a: int, b: int| 0 <= a < b < s2.len() implies lex_lt(
            #[trigger] s2[a].key,
            #[trigger] s2[b].key,
        ) by {
            if b < p {
                assert(lex_lt(s[a].key, s[b].key));
            } else if b == p {
                assert(lex_lt(s[a].key, x.key));
            } else if a < p {
                assert(lex_lt(s[a].key, s[b - 1].key));
            } else if a == p {
                assert(lex_lt(x.key, s[b - 1].key));
            } else {
                assert(lex_lt(s[a - 1].key, s[b - 1].key));
            }
        }
    }
    let m = loaded(s).insert(x.key, x);
    assert forall|k: Seq<char>| loaded(s2).contains_key(k) <==> m.contains_key(k) by {
        lemma_loaded_keys(s2, k);
        lemma_loaded_keys(s, k);
        if has_key(s2, k) {
            let i = choose|i: int| 0 <= i < s2.len() && (#[trigger] s2[i]).key == k;
            if i < p {
                assert(s[i].key == k);
            } else if i > p {
                assert(s[i - 1].key == k);
            }
        }
        if has_key(s, k) {
            let i = choose|i: int| 0 <= i < s.len() && (#[trigger] s[i]).key == k;
            if i < p {
                assert(s2[i].key == k);
            } else {
                assert(s2[i + 1].key == k);
            }
        }
        if k == x.key {
            assert(s2[p].key == k);
        }
    }
    assert forall|k: Seq<char>| loaded(s2).contains_key(k) implies loaded(s2)[k] == m[k] by {
        lemma_loaded_keys(s2, k);
        let i = choose|i: int| 0 <= i < s2.len() && (#[trigger] s2[i]).key == k;
        lemma_loaded_value(s2, i);
        if i < p {
            lemma_loaded_value(s, i);
            assert(lex_lt(s[i].key, x.key));
            lemma_lex_irreflexive(x.key);
        } else if i > p {
            lemma_loaded_value(s, i - 1);
            assert(lex_lt(x.key, s[i - 1].key));
            lemma_lex_irreflexive(x.key);
        }
    }
    assert(loaded(s2) =~= m);
}

// ---------------------------------------------------------------------------
// Merging
// ---------------------------------------------------------------------------

/// The name of the author of an article, if reported.
pub open spec fn author_name(article: Article) -> Option<Seq<char>> {
    match article.user {
        Some(user) => opt_text(user.name),
        None => None,
    }
}

/// The handle of the author of an article, if reported.
pub open spec fn author_handle(article: Article) -> Option<Seq<char>> {
    match article.user {
        Some(user) => opt_text(user.username),
        None => None,
    }
}

/// A missing counter counts as zero.
pub open spec fn count_or_zero(count: Option<u32>) -> u32 {
    match count {
        Some(n) => n,
        None => 0,
    }
}

/// The record stored for `article` under `key` when it was seen at the
/// time written `last_seen`.
pub open spec fn stored_from(article: Article, key: Seq<char>, last_seen: Seq<char>) -> StoredArticleView {
    StoredArticleView {
        key,
        id: article.id,
        canonical_url: opt_text(article.canonical_url),
        url: opt_text(article.url),
        title: article.title@,
        description: opt_text(article.description),
        published_timestamp: opt_text(article.published_timestamp),
        published_at: opt_text(article.published_at),
        edited_at: opt_text(article.edited_at),
        public_reactions_count: count_or_zero(article.public_reactions_count),
        positive_reactions_count: count_or_zero(article.positive_reactions_count),
        tag_list: tags_of(opt_text(article.tag_list)),
        user_name: author_name(article),
        user_username: author_handle(article),
        last_seen,
    }
}

/// The store after the articles have been merged into `store` in order:
/// each article that has a key replaces whatever stood under that key.
pub open spec fn merged_into(
    store: Map<Seq<char>, StoredArticleView>,
    articles: Seq<Article>,
    last_seen: Seq<char>,
) -> Map<Seq<char>, StoredArticleView>
    decreases articles.len(),
{
    if articles.len() == 0 {
        store
    } else {
        let rest = merged_into(store, articles.drop_last(), last_seen);
        match key_of(articles.last()) {
            Some(key) => rest.insert(key, stored_from(articles.last(), key, last_seen)),
            None => rest,
        }
    }
}

/// How many of the articles have a key.
pub open spec fn keyed_count(articles: Seq<Article>) -> nat
    decreases articles.len(),
{
    if articles.len() == 0 {
        0
    } else {
        keyed_count(articles.drop_last()) + if key_of(articles.last()) is Some {
            1nat
        } else {
            0nat
        }
    }
}

/// The last of the articles that has the key `k`, if any has.
pub open spec fn last_with_key(articles: Seq<Article>, k: Seq<char>) -> Option<Article>
    decreases articles.len(),
{
    if articles.len() == 0 {
        None
    } else if key_of(articles.last()) == Some(k) {
        Some(articles.last())
    } else {
        last_with_key(articles.drop_last(), k)
    }
}

/// Whether two records differ in nothing but the time they were last seen.
pub open spec fn same_but_last_seen(a: StoredArticleView, b: StoredArticleView) -> bool {
    a == (StoredArticleView { last_seen: a.last_seen, ..b })
}

/// What a merge leaves under each key: the record made from the last
/// article that has this key, and where no article has it, whatever the
/// store held before. An article without a key leaves no trace.
pub proof fn lemma_merged_entry(
    store: Map<Seq<char>, StoredArticleView>,
    articles: Seq<Article>,
    last_seen: Seq<char>,
    k: Seq<char>,
)
    ensures
        merged_into(store, articles, last_seen).contains_key(k) <==> (last_with_key(articles, k) is Some
            || store.contains_key(k)),
        merged_into(store, articles, last_seen)[k] == (match last_with_key(articles, k) {
            Some(article) => stored_from(article, k, last_seen),
            None => store[k],
        }),
    decreases articles.len(),
{
    if articles.len() > 0 {
        lemma_merged_entry(store, articles.drop_last(), last_seen, k);
    }
}

/// The last article with the key `k` has the key `k`, and there is one
/// exactly if some article has that key.
pub proof fn lemma_last_with_key(articles: Seq<Article>, k: Seq<char>)
    ensures
        last_with_key(articles, k) is Some <==> exists|i: int|
            0 <= i < articles.len() && key_of(#[trigger] articles[i]) == Some(k),
        last_with_key(articles, k) matches Some(article) ==> key_of(article) == Some(k),
    decreases articles.len(),
{
    if articles.len() > 0 {
        let head = articles.drop_last();
        lemma_last_with_key(head, k);
        if key_of(articles.last()) == Some(k) {
            assert(key_of(articles[articles.len() - 1]) == Some(k));
        } else {
            if last_with_key(head, k) is Some {
                let i = choose|i: int| 0 <= i < head.len() && key_of(#[trigger] head[i]) == Some(k);
                assert(key_of(articles[i]) == Some(k));
            }
            if exists|i: int| 0 <= i < articles.len() && key_of(#[trigger] articles[i]) == Some(k) {
                let i = choose|i: int|
                    0 <= i < articles.len() && key_of(#[trigger] articles[i]) == Some(k);
                assert(key_of(head[i]) == Some(k));
            }
        }
    }
}

/// A merge enters records under the keys of the articles and under no
/// others: an article resolves to its identifier or else to its canonical
/// URL, and one that has neither does not get into the store.
pub proof fn lemma_merge_enters_keys_only(
    store: Map<Seq<char>, StoredArticleView>,
    articles: Seq<Article>,
    last_seen: Seq<char>,
    k: Seq<char>,
)
    requires
        !store.contains_key(k),
    ensures
        merged_into(store, articles, last_seen).contains_key(k) <==> exists|i: int|
            0 <= i < articles.len() && key_of(#[trigger] articles[i]) == Some(k),
{
    lemma_merged_entry(store, articles, last_seen, k);
    lemma_last_with_key(articles, k);
}

/// Every article that has a key is in the store after the merge, seen at
/// the time of the merge, whatever its count of reactions.
pub proof fn lemma_merge_stores_every_key(
    store: Map<Seq<char>, StoredArticleView>,
    articles: Seq<Article>,
    last_seen: Seq<char>,
    i: int,
)
    requires
        0 <= i < articles.len(),
        key_of(articles[i]) is Some,
    ensures
        merged_into(store, articles, last_seen).contains_key(key_of(articles[i])->0),
        merged_into(store, articles, last_seen)[key_of(articles[i])->0].last_seen == last_seen,
        merged_into(store, articles, last_seen)[key_of(articles[i])->0].key == key_of(articles[i])->0,
{
    let k = key_of(articles[i])->0;
    lemma_merged_entry(store, articles, last_seen, k);
    lemma_last_with_key(articles, k);
}

/// Merging the same articles a second time, at whatever time, gives the
/// store that merging them once at the second time gives.
pub proof fn lemma_merge_twice(
    store: Map<Seq<char>, StoredArticleView>,
    articles: Seq<Article>,
    first: Seq<char>,
    second: Seq<char>,
)
    ensures
        merged_into(merged_into(store, articles, first), articles, second) == merged_into(
            store,
            articles,
            second,
        ),
{
    let once = merged_into(store, articles, first);
    let twice = merged_into(once, articles, second);
    let direct = merged_into(store, articles, second);
    assert forall|k: Seq<char>| #[trigger] twice.contains_key(k) <==> direct.contains_key(k) by {
        lemma_merged_entry(store, articles, first, k);
        lemma_merged_entry(once, articles, second, k);
        lemma_merged_entry(store, articles, second, k);
    }
    assert forall|k: Seq<char>| #[trigger] twice.contains_key(k) implies twice[k] == direct[k] by {
        lemma_merged_entry(store, articles, first, k);
        lemma_merged_entry(once, articles, second, k);
        lemma_merged_entry(store, articles, second, k);
    }
    assert(twice =~= direct);
}

/// Merging is idempotent: merging the same articles a second time at the
/// same time changes nothing.
pub proof fn lemma_merge_idempotent(
    store: Map<Seq<char>, StoredArticleView>,
    articles: Seq<Article>,
    last_seen: Seq<char>,
)
    ensures
        merged_into(merged_into(store, articles, last_seen), articles, last_seen) == merged_into(
            store,
            articles,
            last_seen,
        ),
{
    lemma_merge_twice(store, articles, last_seen, last_seen);
}

/// Merging the same articles a second time at a later time changes
/// nothing but times last seen: the store has the same keys, each record
/// is as it was but for that time, and a record that none of the articles
/// names is as it was altogether.
pub proof fn lemma_remerge_touches_last_seen_only(
    store: Map<Seq<char>, StoredArticleView>,
    articles: Seq<Article>,
    first: Seq<char>,
    second: Seq<char>,
)
    ensures
        ({
            let once = merged_into(store, articles, first);
            let twice = merged_into(once, articles, second);
            &&& forall|k: Seq<char>| once.contains_key(k) <==> twice.contains_key(k)
            &&& forall|k: Seq<char>| #[trigger]
                once.contains_key(k) ==> same_but_last_seen(twice[k], once[k])
            &&& forall|k: Seq<char>| #[trigger]
                once.contains_key(k) ==> twice[k].last_seen == (if last_with_key(articles, k) is Some {
                    second
                } else {
                    once[k].last_seen
                })
        }),
{
    let once = merged_into(store, articles, first);
    let twice = merged_into(once, articles, second);
    assert forall|k: Seq<char>|
        (once.contains_key(k) <==> twice.contains_key(k)) && (once.contains_key(k)
            ==> same_but_last_seen(twice[k], once[k]) && twice[k].last_seen == (if last_with_key(
            articles,
            k,
        ) is Some {
            second
        } else {
            once[k].last_seen
        })) by {
        lemma_merged_entry(store, articles, first, k);
        lemma_merged_entry(once, articles, second, k);
    }
}

/// The titles of the articles that have no key, in their order: what a
/// merge passes over, for the caller to report.
pub open spec fn keyless_titles(articles: Seq<Article>) -> Seq<Seq<char>>
    decreases articles.len(),
{
    if articles.len() == 0 {
        Seq::<Seq<char>>::empty()
    } else {
        let head = keyless_titles(articles.drop_last());
        if key_of(articles.last()) is None {
            head.push(articles.last().title@)
        } else {
            head
        }
    }
}

/// The titles of the articles that a merge passes over for want of a key.
pub fn skipped_titles(articles: &[Article]) -> (titles: Vec<String>)
    ensures
        texts(titles@) == keyless_titles(articles@),
{
    let mut titles: Vec<String> = Vec::new();
    let mut i: usize = 0;
    assert(articles@.take(0) =~= Seq::<Article>::empty());
    assert(texts(titles@) =~= Seq::<Seq<char>>::empty());
    while i < articles.len()
        invariant
            i <= articles.len(),
            texts(titles@) == keyless_titles(articles@.take(i as int)),
        decreases articles.len() - i,
    {
        let ghost before = texts(titles@);
        proof {
            assert(articles@.take(i + 1).drop_last() =~= articles@.take(i as int));
            assert(articles@.take(i + 1).last() == articles@[i as int]);
        }
        if articles[i].id.is_none() && articles[i].canonical_url.is_none() {
            titles.push(articles[i].title.clone());
            assert(texts(titles@) =~= before.push(articles@[i as int].title@));
        }
        i += 1;
    }
    assert(articles@.take(articles.len() as int) =~= articles@);
    titles
}

fn author_of(article: &Article) -> (r: (Option<String>, Option<String>))
    ensures
        opt_text(r.0) == author_name(*article),
        opt_text(r.1) == author_handle(*article),
{
    match &article.user {
        Some(user) => (copy_opt(&user.name), copy_opt(&user.username)),
        None => (None, None),
    }
}

fn or_zero(count: Option<u32>) -> (n: u32)
    ensures
        n == count_or_zero(count),
{
    match count {
        Some(n) => n,
        None => 0,
    }
}

/// The record to store for `article` under `key`.
pub fn stored_article(article: &Article, key: String, last_seen: String) -> (r: StoredArticle)
    ensures
        r@ == stored_from(*article, key@, last_seen@),
{
    let (user_name, user_username) = author_of(article);
    StoredArticle {
        key,
        id: article.id,
        canonical_url: copy_opt(&article.canonical_url),
        url: copy_opt(&article.url),
        title: article.title.clone(),
        description: copy_opt(&article.description),
        published_timestamp: copy_opt(&article.published_timestamp),
        published_at: copy_opt(&article.published_at),
        edited_at: copy_opt(&article.edited_at),
        public_reactions_count: or_zero(article.public_reactions_count),
        positive_reactions_count: or_zero(article.positive_reactions_count),
        tag_list: parse_tag_list(&article.tag_list),
        user_name,
        user_username,
        last_seen,
    }
}

// ---------------------------------------------------------------------------
// Times read from a record
// ---------------------------------------------------------------------------

/// The time a record was published: what its precise timestamp reads as,
/// else what its alternate timestamp reads as, else none.
pub open spec fn published_of(item: StoredArticleView) -> Option<Timestamp> {
    match parsed_opt(item.published_timestamp) {
        Some(t) => Some(t),
        None => parsed_opt(item.published_at),
    }
}

/// The later of the time of the last edit and the time of publication,
/// where both are known; the one that is known, where one is; else none.
/// Of two equal instants the time of publication is taken.
pub open spec fn later_of(edited: Option<Timestamp>, published: Option<Timestamp>) -> Option<
    Timestamp,
> {
    match (edited, published) {
        (Some(a), Some(b)) => if b.before(a) {
            Some(a)
        } else {
            Some(b)
        },
        (Some(a), None) => Some(a),
        (None, Some(b)) => Some(b),
        (None, None) => None,
    }
}

/// The time a record was last changed, as far as the record says.
pub open spec fn updated_of(item: StoredArticleView) -> Option<Timestamp> {
    later_of(parsed_opt(item.edited_at), published_of(item))
}

/// The time a record was last seen, if its text can be read.
pub open spec fn last_seen_of(item: StoredArticleView) -> Option<Timestamp> {
    parsed_time(item.last_seen)
}

/// The time `item` was published, if the record says.
pub fn published_time(item: &StoredArticle) -> (r: Option<Timestamp>)
    ensures
        r == published_of(item@),
{
    match Timestamp::parse_opt(&item.published_timestamp) {
        Some(t) => Some(t),
        None => Timestamp::parse_opt(&item.published_at),
    }
}

/// The later of two times that may be unknown.
pub fn later_time(edited: Option<Timestamp>, published: Option<Timestamp>) -> (r: Option<Timestamp>)
    ensures
        r == later_of(edited, published),
{
    match (edited, published) {
        (Some(a), Some(b)) => if b.is_before(&a) {
            Some(a)
        } else {
            Some(b)
        },
        (Some(a), None) => Some(a),
        (None, Some(b)) => Some(b),
        (None, None) => None,
    }
}

/// The time `item` was last changed, as far as the record says.
pub fn select_updated_time(item: &StoredArticle) -> (r: Option<Timestamp>)
    ensures
        r == updated_of(item@),
{
    let edited = Timestamp::parse_opt(&item.edited_at);
    let published = published_time(item);
    later_time(edited, published)
}

// ---------------------------------------------------------------------------
// The store
// ---------------------------------------------------------------------------

/// The store: at most one record under each key.
#[derive(Debug)]
pub struct StateStore {
    items: Vec<StoredArticle>,
}

impl View for StateStore {
    type V = Map<Seq<char>, StoredArticleView>;

    closed spec fn view(&self) -> Map<Seq<char>, StoredArticleView> {
        loaded(views(self.items@))
    }
}

impl Default for StateStore {
    fn default() -> (s: Self)
        ensures
            s@ == Map::<Seq<char>, StoredArticleView>::empty(),
    {
        StateStore::new()
    }
}

impl StateStore {
    #[verifier::type_invariant]
    spec fn ascending(self) -> bool {
        sorted_by_key(views(self.items@))
    }

    /// An empty store.
    pub fn new() -> (s: Self)
        ensures
            s@ == Map::<Seq<char>, StoredArticleView>::empty(),
    {
        let items: Vec<StoredArticle> = Vec::new();
        assert(views(items@) =~= Seq::<StoredArticleView>::empty());
        StateStore { items }
    }

    /// The number of records.
    pub fn len(&self) -> (n: usize)
        ensures
            self@.dom().finite(),
            n == self@.len(),
    {
        proof {
            use_type_invariant(self);
            lemma_loaded_len(views(self.items@));
        }
        self.items.len()
    }

    /// Where a record with the key `key` stands or would stand.
    fn position(&self, key: &str) -> (p: usize)
        ensures
            p <= self.items.len(),
            forall|i: int| 0 <= i < p ==> lex_lt((#[trigger] self.items[i])@.key, key@),
            forall|i: int| p <= i < self.items.len() ==> !lex_lt((#[trigger] self.items[i])@.key, key@),
    {
        proof {
            use_type_invariant(self);
        }
        let ghost s = views(self.items@);
        let mut lo: usize = 0;
        let mut hi: usize = self.items.len();
        while lo < hi
            invariant
                lo <= hi <= self.items.len(),
                s == views(self.items@),
                sorted_by_key(s),
                forall|i: int| 0 <= i < lo ==> lex_lt((#[trigger] self.items[i])@.key, key@),
                forall|i: int|
                    hi <= i < self.items.len() ==> !lex_lt((#[trigger] self.items[i])@.key, key@),
            decreases hi - lo,
        {
            let mid: usize = lo + (hi - lo) / 2;
            if str_lt(self.items[mid].key.as_str(), key) {
                proof {
                    assert forall|i: int| 0 <= i < mid + 1 implies lex_lt(
                        (#[trigger] self.items[i])@.key,
                        key@,
                    ) by {
                        if i < mid {
                            assert(lex_lt(s[i].key, s[mid as int].key));
                            lemma_lex_transitive(s[i].key, s[mid as int].key, key@);
                        }
                    }
                }
                lo = mid + 1;
            } else {
                proof {
                    assert forall|i: int| mid <= i < self.items.len() implies !lex_lt(
                        (#[trigger] self.items[i])@.key,
                        key@,
                    ) by {
                        if i > mid && lex_lt(s[i].key, key@) {
                            assert(lex_lt(s[mid as int].key, s[i].key));
                            lemma_lex_transitive(s[mid as int].key, s[i].key, key@);
                        }
                    }
                }
                hi = mid;
            }
        }
        lo
    }

    /// Whether there is a record under `key`.
    pub fn contains_key(&self, key: &str) -> (r: bool)
        ensures
            r == self@.contains_key(key@),
    {
        self.get(key).is_some()
    }

    /// The record under `key`, if there is one.
    pub fn get(&self, key: &str) -> (r: Option<&StoredArticle>)
        ensures
            match r {
                Some(item) => self@.contains_key(key@) && self@[key@] == item@ && item@.key == key@,
                None => !self@.contains_key(key@),
            },
    {
        proof {
            use_type_invariant(self);
        }
        let ghost s = views(self.items@);
        let p = self.position(key);
        if p < self.items.len() && !str_lt(key, self.items[p].key.as_str()) {
            proof {
                assert(s[p as int] == self.items[p as int]@);
                lemma_lex_total(s[p as int].key, key@);
                lemma_loaded_value(s, p as int);
            }
            Some(&self.items[p])
        } else {
            proof {
                lemma_loaded_keys(s, key@);
                if has_key(s, key@) {
                    let i = choose|i: int| 0 <= i < s.len() && (#[trigger] s[i]).key == key@;
                    assert(s[i] == self.items[i]@);
                    lemma_lex_irreflexive(key@);
                    if i > p {
                        assert(lex_lt(s[p as int].key, s[i].key));
                        assert(s[p as int] == self.items[p as int]@);
                        lemma_lex_total(s[p as int].key, key@);
                        lemma_lex_transitive(key@, s[p as int].key, key@);
                    }
                }
            }
            None
        }
    }

    /// Enters `item` under its own key, in place of whatever stood there.
    pub fn insert(&mut self, item: StoredArticle)
        ensures
            final(self)@ == old(self)@.insert(item@.key, item@),
    {
        proof {
            use_type_invariant(&*self);
        }
        let ghost s = views(self.items@);
        let ghost x = item@;
        let p = self.position(item.key.as_str());
        let mut items: Vec<StoredArticle> = Vec::new();
        assert(views(items@) =~= Seq::<StoredArticleView>::empty());
        std::mem::swap(&mut self.items, &mut items);
        if p < items.len() && !str_lt(item.key.as_str(), items[p].key.as_str()) {
            proof {
                assert(s[p as int] == items[p as int]@);
                lemma_lex_total(s[p as int].key, x.key);
                lemma_update(s, p as int, x);
                assert(views(items@.update(p as int, item)) =~= s.update(p as int, x));
            }
            items.set(p, item);
        } else {
            proof {
                assert forall|i: int| 0 <= i < p implies lex_lt((#[trigger] s[i]).key, x.key) by {
                    assert(s[i] == items[i]@);
                }
                assert forall|i: int| p <= i < s.len() implies lex_lt(x.key, (#[trigger] s[i]).key) by {
                    assert(s[i] == items[i]@);
                    assert(s[p as int] == items[p as int]@);
                    lemma_lex_total(s[p as int].key, x.key);
                    if i > p {
                        assert(lex_lt(s[p as int].key, s[i].key));
                        lemma_lex_transitive(x.key, s[p as int].key, s[i].key);
                    }
                }
                lemma_insert(s, p as int, x);
                assert(views(items@.insert(p as int, item)) =~= s.insert(p as int, x));
            }
            items.insert(p, item);
        }
        self.items = items;
    }

    /// The store that the records of a store file make: each record is
    /// entered under its own key, a later record in place of an earlier one
    /// of the same key.
    pub fn load(items: Vec<StoredArticle>) -> (store: Self)
        ensures
            store@ == loaded(views(items@)),
    {
        let mut store = StateStore::new();
        let mut i: usize = 0;
        assert(views(items@).take(0) =~= Seq::<StoredArticleView>::empty());
        while i < items.len()
            invariant
                i <= items.len(),
                store@ == loaded(views(items@).take(i as int)),
            decreases items.len() - i,
        {
            store.insert(items[i].duplicate());
            i += 1;
            proof {
                let done = views(items@).take(i as int);
                assert(done.drop_last() =~= views(items@).take(i - 1));
                assert(done.last() == items@[i - 1]@);
            }
        }
        assert(views(items@).take(items.len() as int) =~= views(items@));
        store
    }

    /// The records in ascending order of their keys: the form in which the
    /// store is written out. Loading that list gives this store again.
    pub fn to_sorted_vec(&self) -> (list: Vec<StoredArticle>)
        ensures
            sorted_by_key(views(list@)),
            loaded(views(list@)) == self@,
            self@.dom().finite(),
            list.len() == self@.len(),
            forall|i: int|
                0 <= i < list.len() ==> self@.contains_key((#[trigger] list[i])@.key) && self@[list[i]@.key]
                    == list[i]@,
    {
        proof {
            use_type_invariant(self);
        }
        let mut list: Vec<StoredArticle> = Vec::new();
        let mut i: usize = 0;
        while i < self.items.len()
            invariant
                i <= self.items.len(),
                list.len() == i,
                forall|j: int| 0 <= j < i ==> (#[trigger] list[j])@ == self.items[j]@,
            decreases self.items.len() - i,
        {
            list.push(self.items[i].duplicate());
            i += 1;
        }
        proof {
            let s = views(self.items@);
            assert(views(list@) =~= s);
            lemma_loaded_len(s);
            assert forall|i: int| 0 <= i < list.len() implies self@.contains_key(
                (#[trigger] list[i])@.key,
            ) && self@[list[i]@.key] == list[i]@ by {
                lemma_loaded_value(s, i);
                assert(s[i] == list[i]@);
            }
        }
        list
    }

    /// Merges the articles into the store, each seen at the time written
    /// `last_seen`: an article that has a key is stored under it, in place
    /// of whatever stood there; one without a key is passed over. Returns
    /// how many were stored.
    pub fn merge_stamped(&mut self, articles: &[Article], last_seen: &str) -> (count: usize)
        ensures
            final(self)@ == merged_into(old(self)@, articles@, last_seen@),
            count == keyed_count(articles@),
    {
        let mut count: usize = 0;
        let mut i: usize = 0;
        assert(articles@.take(0) =~= Seq::<Article>::empty());
        while i < articles.len()
            invariant
                i <= articles.len(),
                count <= i,
                count == keyed_count(articles@.take(i as int)),
                self@ == merged_into(old(self)@, articles@.take(i as int), last_seen@),
            decreases articles.len() - i,
        {
            proof {
                assert(articles@.take(i + 1).drop_last() =~= articles@.take(i as int));
                assert(articles@.take(i + 1).last() == articles@[i as int]);
            }
            match article_key(&articles[i]) {
                Some(key) => {
                    let stored = stored_article(&articles[i], key, last_seen.to_owned());
                    self.insert(stored);
                    count += 1;
                },
                None => {},
            }
            i += 1;
        }
        assert(articles@.take(articles.len() as int) =~= articles@);
        count
    }

    /// Merges the articles into the store as seen at `now`.
    pub fn merge_from_api(&mut self, articles: &[Article], now: UtcTime) -> (count: usize)
        ensures
            final(self)@ == merged_into(
                old(self)@,
                articles@,
                rfc3339_text(now.secs(), now.nanos(), 0),
            ),
            count == keyed_count(articles@),
    {
        let last_seen = now.to_rfc3339();
        self.merge_stamped(articles, last_seen.as_str())
    }

    /// The times at which the records were last seen, in the order of the
    /// store.
    fn last_seen_times(&self) -> (seen: Vec<Option<Timestamp>>)
        ensures
            seen.len() == self.items.len(),
            forall|i: int|
                0 <= i < seen.len() ==> #[trigger] seen[i] == last_seen_of(self.items[i]@),
    {
        let mut seen: Vec<Option<Timestamp>> = Vec::new();
        let mut i: usize = 0;
        while i < self.items.len()
            invariant
                i <= self.items.len(),
                seen.len() == i,
                forall|j: int| 0 <= j < i ==> #[trigger] seen[j] == last_seen_of(self.items[j]@),
            decreases self.items.len() - i,
        {
            seen.push(Timestamp::parse(self.items[i].last_seen.as_str()));
            i += 1;
        }
        seen
    }

    /// What the records are ranked by, in the order of the store.
    fn standings(&self) -> (entries: Vec<Standing>)
        ensures
            entries.len() == self.items.len(),
            forall|i: int|
                0 <= i < entries.len() ==> #[trigger] entries[i] == standing_of(self.items[i]@),
    {
        let mut entries: Vec<Standing> = Vec::new();
        let mut i: usize = 0;
        while i < self.items.len()
            invariant
                i <= self.items.len(),
                entries.len() == i,
                forall|j: int|
                    0 <= j < i ==> #[trigger] entries[j] == standing_of(self.items[j]@),
            decreases self.items.len() - i,
        {
            entries.push(standing(&self.items[i]));
            i += 1;
        }
        entries
    }

    /// Copies of the records at the positions `picked`, in that order.
    fn copies(&self, picked: &Vec<usize>) -> (list: Vec<StoredArticle>)
        requires
            forall|t: int| 0 <= t < picked.len() ==> #[trigger] picked[t] < self.items.len(),
        ensures
            list.len() == picked.len(),
            forall|t: int|
                0 <= t < list.len() ==> (#[trigger] list[t])@ == self.items[picked[t] as int]@,
    {
        let mut list: Vec<StoredArticle> = Vec::new();
        let mut t: usize = 0;
        while t < picked.len()
            invariant
                t <= picked.len(),
                list.len() == t,
                forall|u: int| 0 <= u < picked.len() ==> #[trigger] picked[u] < self.items.len(),
                forall|u: int|
                    0 <= u < t ==> (#[trigger] list[u])@ == self.items[picked[u] as int]@,
            decreases picked.len() - t,
        {
            list.push(self.items[picked[t]].duplicate());
            t += 1;
        }
        list
    }

    /// Ages out and caps the store. A record stays only if its last-seen
    /// time can be read and is not earlier than `max_days` days before
    /// `now`. If more than `max_items` such records exist, the `max_items`
    /// seen latest stay; among records seen at the same instant those with
    /// the greater keys stay.
    pub fn prune(&mut self, now: UtcTime, max_days: u32, max_items: usize)
        ensures
            is_pruned(old(self)@, final(self)@, now, max_days, max_items as int),
    {
        proof {
            use_type_invariant(&*self);
        }
        let ghost s = views(self.items@);
        let seen = self.last_seen_times();
        let picked = select_retained(&seen, now, max_days, max_items);
        let mut kept = StateStore::new();
        let mut t: usize = 0;
        proof {
            assert forall|x: int, y: int| 0 <= x < y < picked.len() implies s[picked[x] as int].key
                != s[picked[y] as int].key by {
                let a = picked[x] as int;
                let b = picked[y] as int;
                assert(stays_before(seen@, now, a, b));
                if a < b {
                    assert(lex_lt(s[a].key, s[b].key));
                } else {
                    assert(lex_lt(s[b].key, s[a].key));
                }
                lemma_lex_irreflexive(s[a].key);
            }
        }
        while t < picked.len()
            invariant
                t <= picked.len(),
                s == views(self.items@),
                s.len() == seen.len(),
                forall|u: int| 0 <= u < picked.len() ==> #[trigger] picked[u] < s.len(),
                forall|x: int, y: int|
                    0 <= x < y < picked.len() ==> s[picked[x] as int].key != s[picked[y] as int].key,
                kept@.dom().finite(),
                kept@.len() == t,
                forall|k: Seq<char>| #[trigger]
                    kept@.contains_key(k) ==> exists|u: int|
                        0 <= u < t && s[#[trigger] picked[u] as int].key == k && kept@[k]
                            == s[picked[u] as int],
                forall|u: int| 0 <= u < t ==> kept@.contains_key(s[#[trigger] picked[u] as int].key),
            decreases picked.len() - t,
        {
            let ghost prior = kept@;
            let ghost key = s[picked[t as int] as int].key;
            proof {
                if prior.contains_key(key) {
                    let u = choose|u: int|
                        0 <= u < t && s[#[trigger] picked[u] as int].key == key && prior[key]
                            == s[picked[u] as int];
                    assert(s[picked[u] as int].key != s[picked[t as int] as int].key);
                }
            }
            kept.insert(self.items[picked[t]].duplicate());
            proof {
                assert(s[picked[t as int] as int] == self.items[picked[t as int] as int]@);
                assert(kept@ == prior.insert(key, s[picked[t as int] as int]));
                assert(kept@.dom() =~= prior.dom().insert(key));
                assert forall|k: Seq<char>| #[trigger] kept@.contains_key(k) implies exists|u: int|
                    0 <= u < t + 1 && s[#[trigger] picked[u] as int].key == k && kept@[k]
                        == s[picked[u] as int] by {
                    if k == key {
                        assert(s[picked[t as int] as int].key == k);
                    } else {
                        let u = choose|u: int|
                            0 <= u < t && s[#[trigger] picked[u] as int].key == k && prior[k]
                                == s[picked[u] as int];
                        assert(s[picked[u] as int].key == k);
                    }
                }
            }
            t += 1;
        }
        proof {
            let before = loaded(s);
            let after = kept@;
            assert forall|k: Seq<char>| #[trigger] after.contains_key(k) implies before.contains_key(k)
                && after[k] == before[k] && fresh_record(before[k], now, max_days) by {
                let u = choose|u: int|
                    0 <= u < picked.len() && s[#[trigger] picked[u] as int].key == k && after[k]
                        == s[picked[u] as int];
                lemma_loaded_value(s, picked[u] as int);
                assert(seen[picked[u] as int] == last_seen_of(self.items[picked[u] as int]@));
            }
            assert forall|k: Seq<char>|
                #[trigger] before.contains_key(k) && fresh_record(before[k], now, max_days)
                    && !after.contains_key(k) implies after.len() == max_items && forall|
                j: Seq<char>,
            | #[trigger]
                after.contains_key(j) ==> stays_longer(after[j], before[k], now) by {
                lemma_loaded_keys(s, k);
                let i = choose|i: int| 0 <= i < s.len() && (#[trigger] s[i]).key == k;
                lemma_loaded_value(s, i);
                assert(seen[i] == last_seen_of(self.items[i]@));
                if holds(picked@, i) {
                    let u = choose|u: int| 0 <= u < picked.len() && #[trigger] picked[u] == i;
                    assert(after.contains_key(s[picked[u] as int].key));
                }
                assert forall|j: Seq<char>| #[trigger] after.contains_key(j) implies stays_longer(
                    after[j],
                    before[k],
                    now,
                ) by {
                    let u = choose|u: int|
                        0 <= u < picked.len() && s[#[trigger] picked[u] as int].key == j && after[j]
                            == s[picked[u] as int];
                    let x = picked[u] as int;
                    assert(stays_before(seen@, now, x, i));
                    assert(seen[x] == last_seen_of(self.items[x]@));
                    if i < x {
                        assert(lex_lt(s[i].key, s[x].key));
                    }
                }
            }
        }
        *self = kept;
    }

    /// The ranked view of the store: the records with at least
    /// `min_reactions` public reactions, those with more reactions first,
    /// among equal counts those published later first (a record with no
    /// readable time of publication after all that have one), among records
    /// that still rank the same those with the smaller key first; cut off
    /// after `max_entries`.
    pub fn ranked(&self, min_reactions: u32, max_entries: usize) -> (list: Vec<StoredArticle>)
        ensures
            is_ranked(self@, min_reactions, max_entries as int, views(list@)),
    {
        proof {
            use_type_invariant(self);
        }
        let ghost s = views(self.items@);
        let entries = self.standings();
        let picked = select_ranked(&entries, min_reactions, max_entries);
        let list = self.copies(&picked);
        proof {
            let store = loaded(s);
            let r = views(list@);
            assert forall|t: int| 0 <= t < r.len() implies store.contains_key((#[trigger] r[t]).key)
                && store[r[t].key] == r[t] && r[t].public_reactions_count >= min_reactions by {
                assert(r[t] == list[t]@);
                lemma_loaded_value(s, picked[t] as int);
                assert(entries[picked[t] as int] == standing_of(self.items[picked[t] as int]@));
            }
            assert forall|t: int, u: int| 0 <= t < u < r.len() implies listed_before(
                #[trigger] r[t],
                #[trigger] r[u],
            ) by {
                let x = picked[t] as int;
                let y = picked[u] as int;
                assert(r[t] == list[t]@ && r[u] == list[u]@);
                assert(shown_before(entries@, x, y));
                assert(entries[x] == standing_of(self.items[x]@));
                assert(entries[y] == standing_of(self.items[y]@));
                if x < y {
                    assert(lex_lt(s[x].key, s[y].key));
                }
            }
            assert forall|k: Seq<char>|
                #[trigger] store.contains_key(k) && store[k].public_reactions_count >= min_reactions
                    && !lists_key(r, k) implies r.len() == max_entries && forall|t: int|
                0 <= t < r.len() ==> listed_before(#[trigger] r[t], store[k]) by {
                lemma_loaded_keys(s, k);
                let i = choose|i: int| 0 <= i < s.len() && (#[trigger] s[i]).key == k;
                lemma_loaded_value(s, i);
                assert(entries[i] == standing_of(self.items[i]@));
                if holds(picked@, i) {
                    let u = choose|u: int| 0 <= u < picked.len() && #[trigger] picked[u] == i;
                    assert(r[u] == list[u]@);
                    assert(r[u].key == k);
                }
                assert forall|t: int| 0 <= t < r.len() implies listed_before(
                    #[trigger] r[t],
                    store[k],
                ) by {
                    let x = picked[t] as int;
                    assert(r[t] == list[t]@);
                    assert(shown_before(entries@, x, i));
                    assert(entries[x] == standing_of(self.items[x]@));
                    if x < i {
                        assert(lex_lt(s[x].key, s[i].key));
                    }
                }
            }
        }
        list
    }
}

} // verus!
