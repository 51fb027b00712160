//! Collections, documents and chunks: the persistent data model of the
//! retrieval subsystem, held as an in-memory store with its invariants.
//!
//! A collection owns documents, a document owns chunks; names of collections
//! are unique, identifiers are unique, and children never outlive their
//! parents.  Deletion cascades chunks first, then documents, then the
//! collection itself.

use vstd::prelude::*;
use vstd::string::StringExecFns;
use crate::text::{str_eq, str_views};

verus! {

/// Errors of the retrieval subsystem.
#[derive(Debug, Clone)]
pub enum RagError {
    /// The underlying store failed; carries a description.
    Database(String),
    /// A collection could not be created because the name is taken.
    DuplicateName(String),
    /// No collection matches the given identifier or name.
    CollectionNotFound(String),
    /// No document matches the given identifier.
    DocumentNotFound(String),
    /// A file could not be read or decoded.
    FileError(String),
    /// The embedding provider or the generation step failed.
    EmbeddingError(String),
    /// An input/output failure outside the store.
    Io(String),
}

/// A collection as reported to callers, with derived counts.
#[derive(Debug, Clone)]
pub struct RagCollection {
    pub id: String,
    pub name: String,
    pub description: Option<String>,
    pub created_at: String,
    pub document_count: u32,
    pub chunk_count: u32,
}

/// Metadata of one ingested document.
#[derive(Debug, Clone)]
pub struct DocumentMeta {
    pub id: String,
    pub collection_id: String,
    pub path: String,
    pub title: Option<String>,
    pub chunk_count: u32,
    pub created_at: String,
}

/// One chunk of a document's text.  The embedding holds the 32-bit patterns
/// of the vector's components; an empty vector means no embedding is stored.
#[derive(Debug, Clone)]
pub struct Chunk {
    pub id: String,
    pub document_id: String,
    pub collection_id: String,
    pub text: String,
    pub embedding: Vec<u32>,
    pub order: i32,
}

/// A stored collection record; counts are always derived, never stored.
#[derive(Debug, Clone)]
pub struct CollectionRec {
    pub id: String,
    pub name: String,
    pub description: Option<String>,
    pub created_at: String,
}

/// A stored document record.
#[derive(Debug, Clone)]
pub struct DocumentRec {
    pub id: String,
    pub collection_id: String,
    pub path: String,
    pub title: Option<String>,
    pub created_at: String,
}

/// The store: three related tables, the single source of truth.
pub struct RagStore {
    pub collections: Vec<CollectionRec>,
    pub documents: Vec<DocumentRec>,
    pub chunks: Vec<Chunk>,
}

/// Whether a collection record is addressed by `key` (its id or its name).
pub open spec fn col_match(c: CollectionRec, key: Seq<char>) -> bool {
    c.id@ == key || c.name@ == key
}

/// Whether some collection has the given id.
pub open spec fn has_col_id(cols: Seq<CollectionRec>, id: Seq<char>) -> bool {
    exists|i: int| 0 <= i < cols.len() && (#[trigger] cols[i]).id@ == id
}

/// Whether some collection has the given name.
pub open spec fn has_col_name(cols: Seq<CollectionRec>, name: Seq<char>) -> bool {
    exists|i: int| 0 <= i < cols.len() && (#[trigger] cols[i]).name@ == name
}

/// Index of the first collection addressed by `key`, or `cols.len()`.
pub open spec fn find_col(cols: Seq<CollectionRec>, key: Seq<char>) -> int
    decreases cols.len(),
{
    if cols.len() == 0 {
        0
    } else if col_match(cols[0], key) {
        0
    } else {
        1 + find_col(cols.drop_first(), key)
    }
}

/// `find_col` points at the first match, or past the end if none.
pub proof fn lemma_find_col(cols: Seq<CollectionRec>, key: Seq<char>)
    ensures
        0 <= find_col(cols, key) <= cols.len(),
        forall|i: int| 0 <= i < find_col(cols, key) ==> !col_match(#[trigger] cols[i], key),
        find_col(cols, key) < cols.len() ==> col_match(cols[find_col(cols, key)], key),
    decreases cols.len(),
{
    if cols.len() > 0 && !col_match(cols[0], key) {
        lemma_find_col(cols.drop_first(), key);
        assert forall|i: int| 0 <= i < find_col(cols, key) implies !col_match(
            #[trigger] cols[i],
            key,
        ) by {
            if i > 0 {
                assert(!col_match(cols.drop_first()[i - 1], key));
            }
        }
    }
}

/// Chunk `i` of the store belongs to a stored document of its own
/// collection.
pub open spec fn chunk_linked(store: RagStore, i: int) -> bool {
    exists|d: int|
        {
            &&& 0 <= d < store.documents@.len()
            &&& (#[trigger] store.documents@[d]).id@ == store.chunks@[i].document_id@
            &&& store.documents@[d].collection_id@ == store.chunks@[i].collection_id@
        }
}

/// The documents of collection `cid`.
pub open spec fn docs_of(docs: Seq<DocumentRec>, cid: Seq<char>) -> Seq<DocumentRec> {
    docs.filter(|d: DocumentRec| d.collection_id@ == cid)
}

/// The chunks of collection `cid`.
pub open spec fn chunks_of(chunks: Seq<Chunk>, cid: Seq<char>) -> Seq<Chunk> {
    chunks.filter(|c: Chunk| c.collection_id@ == cid)
}

impl RagStore {
    /// The store's invariant: collection ids and names are unique, every
    /// document belongs to an existing collection, and every chunk belongs to
    /// an existing document of the chunk's own collection.
    pub open spec fn wf(self) -> bool {
        &&& forall|i: int, j: int|
            0 <= i < j < self.collections@.len() ==> (#[trigger] self.collections@[i]).id@ != (
            #[trigger] self.collections@[j]).id@
        &&& forall|i: int, j: int|
            0 <= i < j < self.collections@.len() ==> (#[trigger] self.collections@[i]).name@ != (
            #[trigger] self.collections@[j]).name@
        &&& forall|i: int|
            0 <= i < self.documents@.len() ==> has_col_id(
                self.collections@,
                (#[trigger] self.documents@[i]).collection_id@,
            )
        &&& forall|i: int| 0 <= i < self.chunks@.len() ==> #[trigger] chunk_linked(self, i)
    }

    /// An empty store.
    pub fn new() -> (r: RagStore)
        ensures
            r.wf(),
            r.collections@.len() == 0,
            r.documents@.len() == 0,
            r.chunks@.len() == 0,
    {
        RagStore { collections: Vec::new(), documents: Vec::new(), chunks: Vec::new() }
    }

    /// Count of documents in collection `cid`.
    fn count_docs(&self, cid: &String) -> (r: u32)
        ensures
            r == docs_of(self.documents@, cid@).len() as u32,
    {
        let ghost pred = |d: DocumentRec| d.collection_id@ == cid@;
        let n = self.documents.len();
        let mut count: usize = 0;
        let mut i: usize = 0;
        proof {
            assert(self.documents@.subrange(0, 0).filter(pred) =~= Seq::<DocumentRec>::empty());
        }
        while i < n
            invariant
                n == self.documents@.len(),
                i <= n,
                count == self.documents@.subrange(0, i as int).filter(pred).len(),
                count <= i,
                pred == (|d: DocumentRec| d.collection_id@ == cid@),
            decreases n - i,
        {
            let ghost prefix = self.documents@.subrange(0, i as int);
            proof {
                lemma_filter_push(prefix, pred, self.documents@[i as int]);
                assert(prefix.push(self.documents@[i as int]) =~= self.documents@.subrange(
                    0,
                    i as int + 1,
                ));
            }
            if str_eq(self.documents[i].collection_id.as_str(), cid.as_str()) {
                count = count + 1;
            }
            i = i + 1;
        }
        proof {
            assert(self.documents@.subrange(0, n as int) =~= self.documents@);
        }
        count as u32
    }

    /// Count of chunks in collection `cid`.
    fn count_chunks(&self, cid: &String) -> (r: u32)
        ensures
            r == chunks_of(self.chunks@, cid@).len() as u32,
    {
        let ghost pred = |c: Chunk| c.collection_id@ == cid@;
        let n = self.chunks.len();
        let mut count: usize = 0;
        let mut i: usize = 0;
        proof {
            assert(self.chunks@.subrange(0, 0).filter(pred) =~= Seq::<Chunk>::empty());
        }
        while i < n
            invariant
                n == self.chunks@.len(),
                i <= n,
                count == self.chunks@.subrange(0, i as int).filter(pred).len(),
                count <= i,
                pred == (|c: Chunk| c.collection_id@ == cid@),
            decreases n - i,
        {
            let ghost prefix = self.chunks@.subrange(0, i as int);
            proof {
                lemma_filter_push(prefix, pred, self.chunks@[i as int]);
                assert(prefix.push(self.chunks@[i as int]) =~= self.chunks@.subrange(
                    0,
                    i as int + 1,
                ));
            }
            if str_eq(self.chunks[i].collection_id.as_str(), cid.as_str()) {
                count = count + 1;
            }
            i = i + 1;
        }
        proof {
            assert(self.chunks@.subrange(0, n as int) =~= self.chunks@);
        }
        count as u32
    }
}

/// Filtering one more element keeps it exactly when the predicate holds.
pub proof fn lemma_filter_push<A>(s: Seq<A>, pred: spec_fn(A) -> bool, x: A)
    ensures
        pred(x) ==> s.push(x).filter(pred) == s.filter(pred).push(x),
        !pred(x) ==> s.push(x).filter(pred) == s.filter(pred),
{
    reveal(Seq::filter);
    assert(s.push(x).drop_last() =~= s);
}

/// Every element of a filtered sequence comes from the original.
pub proof fn lemma_filter_from<A>(s: Seq<A>, pred: spec_fn(A) -> bool, i: int)
    requires
        0 <= i < s.filter(pred).len(),
    ensures
        exists|k: int| 0 <= k < s.len() && #[trigger] s[k] == s.filter(pred)[i],
    decreases s.len(),
{
    reveal(Seq::filter);
    if s.len() > 0 {
        let f = s.filter(pred);
        let fd = s.drop_last().filter(pred);
        if pred(s.last()) && i == f.len() - 1 {
            assert(s[s.len() - 1] == f[i]);
        } else {
            lemma_filter_from(s.drop_last(), pred, i);
            let k = choose|k: int|
                0 <= k < s.drop_last().len() && #[trigger] s.drop_last()[k] == fd[i];
            assert(s[k] == s.drop_last()[k]);
            assert(s[k] == f[i]);
        }
    }
}

/// The index found by a linear scan is `find_col`.
pub proof fn lemma_find_col_determined(cols: Seq<CollectionRec>, key: Seq<char>, k: int)
    requires
        0 <= k <= cols.len(),
        forall|i: int| 0 <= i < k ==> !col_match(#[trigger] cols[i], key),
        k < cols.len() ==> col_match(cols[k], key),
    ensures
        find_col(cols, key) == k,
    decreases cols.len(),
{
    if cols.len() == 0 {
    } else if col_match(cols[0], key) {
        assert(k == 0);
    } else {
        assert(k >= 1);
        assert forall|i: int| 0 <= i < k - 1 implies !col_match(
            #[trigger] cols.drop_first()[i],
            key,
        ) by {
            assert(cols.drop_first()[i] == cols[i + 1]);
        }
        lemma_find_col_determined(cols.drop_first(), key, k - 1);
    }
}

/// Relies on `uuid::Uuid::new_v4` and its display form: a fresh random
/// version-4 UUID, rendered hyphenated, which is 36 characters long.
#[verifier::external_body]
pub(crate) fn fresh_id() -> (r: String)
    ensures
        r@.len() == 36,
{
    uuid::Uuid::new_v4().to_string()
}

/// Relies on `chrono::Utc::now` and `DateTime::to_rfc3339`: the current time,
/// rendered in RFC 3339 form.  Nothing is assumed about the value.
#[verifier::external_body]
pub(crate) fn now_rfc3339() -> String {
    chrono::Utc::now().to_rfc3339()
}

/// A copy of an optional string, character for character.
fn opt_str_clone(o: &Option<String>) -> (r: Option<String>)
    ensures
        opt_str_matches(r, *o),
{
    match o {
        Some(s) => Some(s.clone()),
        None => None,
    }
}

/// The two optional strings hold the same characters.
pub open spec fn opt_str_matches(a: Option<String>, b: Option<String>) -> bool {
    match a {
        Some(s) => b matches Some(t) && s@ == t@,
        None => b is None,
    }
}

/// An optional `&str` and an optional `String` hold the same characters.
pub open spec fn opt_str_eq(a: Option<String>, b: Option<&str>) -> bool {
    match a {
        Some(s) => b matches Some(t) && s@ == t@,
        None => b is None,
    }
}

/// The reported collection `c` shows record `j` of the store, with its
/// derived counts.
pub open spec fn reports_col(c: RagCollection, store: RagStore, j: int) -> bool {
    &&& c.id@ == store.collections@[j].id@
    &&& c.name@ == store.collections@[j].name@
    &&& opt_str_matches(c.description, store.collections@[j].description)
    &&& c.created_at@ == store.collections@[j].created_at@
    &&& c.document_count == docs_of(store.documents@, store.collections@[j].id@).len() as u32
    &&& c.chunk_count == chunks_of(store.chunks@, store.collections@[j].id@).len() as u32
}

impl RagStore {
    /// Find the first collection addressed by `key` (its id or name).
    pub(crate) fn find_index(&self, key: &str) -> (r: usize)
        ensures
            r == find_col(self.collections@, key@),
    {
        let n = self.collections.len();
        let mut i: usize = 0;
        while i < n
            invariant
                n == self.collections@.len(),
                i <= n,
                forall|j: int| 0 <= j < i ==> !col_match(#[trigger] self.collections@[j], key@),
            decreases n - i,
        {
            let c = &self.collections[i];
            if str_eq(c.id.as_str(), key) || str_eq(c.name.as_str(), key) {
                proof {
                    lemma_find_col_determined(self.collections@, key@, i as int);
                }
                return i;
            }
            i = i + 1;
        }
        proof {
            lemma_find_col_determined(self.collections@, key@, n as int);
        }
        n
    }

    /// Create a collection under a caller-chosen identifier and timestamp.
    ///
    /// Fails with `DuplicateName` when the name is taken, and with a store
    /// error when the identifier is taken; otherwise appends exactly one
    /// record and reports it back with zero counts.
    pub fn create_collection_with(
        &mut self,
        id: String,
        created_at: String,
        name: &str,
        description: Option<&str>,
    ) -> (r: Result<RagCollection, RagError>)
        requires
            old(self).wf(),
        ensures
            final(self).wf(),
            has_col_name(old(self).collections@, name@) ==> (r matches Err(
                RagError::DuplicateName(s),
            ) && s@ == name@ && *final(self) == *old(self)),
            !has_col_name(old(self).collections@, name@) && has_col_id(
                old(self).collections@,
                id@,
            ) ==> (r matches Err(RagError::Database(_)) && *final(self) == *old(self)),
            !has_col_name(old(self).collections@, name@) && !has_col_id(
                old(self).collections@,
                id@,
            ) ==> (r matches Ok(c) && {
                &&& c.id@ == id@
                &&& c.name@ == name@
                &&& opt_str_eq(c.description, description)
                &&& c.created_at@ == created_at@
                &&& c.document_count == 0
                &&& c.chunk_count == 0
                &&& final(self).collections@.len() == old(self).collections@.len() + 1
                &&& final(self).collections@.subrange(0, old(self).collections@.len() as int) == old(
                    self,
                ).collections@
                &&& final(self).collections@.last().id@ == id@
                &&& final(self).collections@.last().name@ == name@
                &&& opt_str_eq(final(self).collections@.last().description, description)
                &&& final(self).collections@.last().created_at@ == created_at@
                &&& final(self).documents@ == old(self).documents@
                &&& final(self).chunks@ == old(self).chunks@
            }),
    {
        let n = self.collections.len();
        let mut i: usize = 0;
        while i < n
            invariant
                *self == *old(self),
                old(self).wf(),
                n == self.collections@.len(),
                i <= n,
                forall|j: int| 0 <= j < i ==> (#[trigger] self.collections@[j]).name@ != name@,
            decreases n - i,
        {
            let c = &self.collections[i];
            if str_eq(c.name.as_str(), name) {
                proof {
                    assert(has_col_name(self.collections@, name@));
                }
                return Err(RagError::DuplicateName(String::from_str(name)));
            }
            i = i + 1;
        }
        let mut i: usize = 0;
        while i < n
            invariant
                *self == *old(self),
                old(self).wf(),
                n == self.collections@.len(),
                i <= n,
                forall|j: int| 0 <= j < n ==> (#[trigger] self.collections@[j]).name@ != name@,
                forall|j: int| 0 <= j < i ==> (#[trigger] self.collections@[j]).id@ != id@,
            decreases n - i,
        {
            let c = &self.collections[i];
            if str_eq(c.id.as_str(), id.as_str()) {
                proof {
                    assert(has_col_id(self.collections@, id@));
                    if has_col_name(self.collections@, name@) {
                        let w = choose|w: int|
                            0 <= w < self.collections@.len() && (
                            #[trigger] self.collections@[w]).name@ == name@;
                        assert(false);
                    }
                }
                return Err(RagError::Database(String::from_str("collection id already in use")));
            }
            i = i + 1;
        }
        proof {
            if has_col_name(self.collections@, name@) {
                let w = choose|w: int|
                    0 <= w < self.collections@.len() && (#[trigger] self.collections@[w]).name@
                        == name@;
                assert(false);
            }
            if has_col_id(self.collections@, id@) {
                let w = choose|w: int|
                    0 <= w < self.collections@.len() && (#[trigger] self.collections@[w]).id@
                        == id@;
                assert(false);
            }
        }
        let desc_owned: Option<String> = match description {
            Some(d) => Some(String::from_str(d)),
            None => None,
        };
        let rec = CollectionRec {
            id: id.clone(),
            name: String::from_str(name),
            description: desc_owned,
            created_at: created_at.clone(),
        };
        let reported = RagCollection {
            id: rec.id.clone(),
            name: rec.name.clone(),
            description: opt_str_clone(&rec.description),
            created_at: rec.created_at.clone(),
            document_count: 0,
            chunk_count: 0,
        };
        let ghost pre = *self;
        self.collections.push(rec);
        proof {
            assert(self.collections@.subrange(0, pre.collections@.len() as int) =~= pre.collections@);
            assert forall|a: int, b: int|
                0 <= a < b < self.collections@.len() implies (#[trigger] self.collections@[a]).id@
                != (#[trigger] self.collections@[b]).id@ && (#[trigger] self.collections@[a]).name@
                != (#[trigger] self.collections@[b]).name@ by {
                if b < self.collections@.len() - 1 {
                    assert(pre.collections@[a] == self.collections@[a]);
                    assert(pre.collections@[b] == self.collections@[b]);
                } else {
                    assert(pre.collections@[a] == self.collections@[a]);
                }
            }
            assert forall|a: int|
                0 <= a < self.documents@.len() implies has_col_id(
                self.collections@,
                (#[trigger] self.documents@[a]).collection_id@,
            ) by {
                assert(has_col_id(pre.collections@, self.documents@[a].collection_id@));
                let w = choose|w: int|
                    0 <= w < pre.collections@.len() && (#[trigger] pre.collections@[w]).id@
                        == self.documents@[a].collection_id@;
                assert(self.collections@[w].id@ == self.documents@[a].collection_id@);
            }
            assert forall|a: int| 0 <= a < self.chunks@.len() implies #[trigger] chunk_linked(
                *self,
                a,
            ) by {
                assert(chunk_linked(pre, a));
                let pd = choose|pd: int|
                    {
                        &&& 0 <= pd < pre.documents@.len()
                        &&& (#[trigger] pre.documents@[pd]).id@ == pre.chunks@[a].document_id@
                        &&& pre.documents@[pd].collection_id@ == pre.chunks@[a].collection_id@
                    };
                assert(0 <= pd < self.documents@.len() && self.documents@[pd].id@
                    == self.chunks@[a].document_id@ && self.documents@[pd].collection_id@
                    == self.chunks@[a].collection_id@);
            }
        }
        Ok(reported)
    }

    /// Create a new collection with a fresh identifier and the current time.
    ///
    /// Fails with `DuplicateName` when the name is taken; otherwise either
    /// appends exactly one record and reports it, or (only if the fresh
    /// identifier happens to collide) fails with a store error and changes
    /// nothing.
    pub fn create_collection(&mut self, name: &str, description: Option<&str>) -> (r: Result<
        RagCollection,
        RagError,
    >)
        requires
            old(self).wf(),
        ensures
            final(self).wf(),
            has_col_name(old(self).collections@, name@) ==> (r matches Err(
                RagError::DuplicateName(s),
            ) && s@ == name@ && *final(self) == *old(self)),
            !has_col_name(old(self).collections@, name@) ==> match r {
                Ok(c) => {
                    &&& c.name@ == name@
                    &&& opt_str_eq(c.description, description)
                    &&& c.document_count == 0
                    &&& c.chunk_count == 0
                    &&& !has_col_id(old(self).collections@, c.id@)
                    &&& final(self).collections@.len() == old(self).collections@.len() + 1
                    &&& final(self).collections@.subrange(0, old(self).collections@.len() as int) == old(
                        self,
                    ).collections@
                    &&& final(self).collections@.last().id@ == c.id@
                    &&& final(self).collections@.last().name@ == name@
                    &&& final(self).documents@ == old(self).documents@
                    &&& final(self).chunks@ == old(self).chunks@
                },
                Err(e) => e matches RagError::Database(_) && *final(self) == *old(self),
            },
            // a store failure can only come from an identifier collision, so
            // on a store without a 36-character identifier success is owed
            r matches Err(RagError::Database(_)) ==> exists|i: int|
                0 <= i < old(self).collections@.len() && (
                #[trigger] old(self).collections@[i]).id@.len() == 36,
    {
        let id = fresh_id();
        let created_at = now_rfc3339();
        let ghost idv = id@;
        let r = self.create_collection_with(id, created_at, name, description);
        proof {
            match r {
                Err(RagError::Database(_)) => {
                    assert(has_col_id(old(self).collections@, idv));
                    let w = choose|w: int|
                        0 <= w < old(self).collections@.len() && (
                        #[trigger] old(self).collections@[w]).id@ == idv;
                    assert(old(self).collections@[w].id@.len() == 36);
                },
                _ => {},
            }
        }
        r
    }

    /// Report the collection addressed by `id_or_name` (either its unique
    /// identifier or its unique name), with derived counts; fails with
    /// `CollectionNotFound` when nothing matches.
    pub fn get_collection(&self, id_or_name: &str) -> (r: Result<RagCollection, RagError>)
        ensures
            match r {
                Ok(c) => find_col(self.collections@, id_or_name@) < self.collections@.len()
                    && reports_col(c, *self, find_col(self.collections@, id_or_name@)),
                Err(e) => e matches RagError::CollectionNotFound(s) && s@ == id_or_name@
                    && find_col(self.collections@, id_or_name@) == self.collections@.len(),
            },
    {
        let j = self.find_index(id_or_name);
        proof {
            lemma_find_col(self.collections@, id_or_name@);
        }
        if j == self.collections.len() {
            return Err(RagError::CollectionNotFound(String::from_str(id_or_name)));
        }
        let rec = &self.collections[j];
        let document_count = self.count_docs(&rec.id);
        let chunk_count = self.count_chunks(&rec.id);
        Ok(
            RagCollection {
                id: rec.id.clone(),
                name: rec.name.clone(),
                description: opt_str_clone(&rec.description),
                created_at: rec.created_at.clone(),
                document_count,
                chunk_count,
            },
        )
    }

    /// Report every collection, newest first, with derived counts.
    pub fn list_collections(&self) -> (r: Vec<RagCollection>)
        ensures
            r@.len() == self.collections@.len(),
            forall|i: int|
                0 <= i < r@.len() ==> reports_col(
                    #[trigger] r@[i],
                    *self,
                    self.collections@.len() - 1 - i,
                ),
    {
        let n = self.collections.len();
        let mut r: Vec<RagCollection> = Vec::new();
        let mut i: usize = 0;
        while i < n
            invariant
                n == self.collections@.len(),
                i <= n,
                r@.len() == i,
                forall|k: int| 0 <= k < i ==> reports_col(#[trigger] r@[k], *self, n - 1 - k),
            decreases n - i,
        {
            let rec = &self.collections[n - 1 - i];
            let document_count = self.count_docs(&rec.id);
            let chunk_count = self.count_chunks(&rec.id);
            r.push(
                RagCollection {
                    id: rec.id.clone(),
                    name: rec.name.clone(),
                    description: opt_str_clone(&rec.description),
                    created_at: rec.created_at.clone(),
                    document_count,
                    chunk_count,
                },
            );
            i = i + 1;
        }
        r
    }

    /// Delete the collection addressed by `id_or_name`, cascading first to
    /// its chunks, then to its documents, then to the record itself; fails
    /// with `CollectionNotFound` when nothing matches.
    pub fn delete_collection(&mut self, id_or_name: &str) -> (r: Result<(), RagError>)
        requires
            old(self).wf(),
        ensures
            final(self).wf(),
            match r {
                Ok(()) => {
                    let j = find_col(old(self).collections@, id_or_name@);
                    let cid = old(self).collections@[j].id@;
                    &&& j < old(self).collections@.len()
                    &&& final(self).collections@ == old(self).collections@.remove(j)
                    &&& final(self).documents@ == old(self).documents@.filter(
                        |d: DocumentRec| d.collection_id@ != cid,
                    )
                    &&& final(self).chunks@ == old(self).chunks@.filter(
                        |c: Chunk| c.collection_id@ != cid,
                    )
                },
                Err(e) => e matches RagError::CollectionNotFound(s) && s@ == id_or_name@
                    && find_col(old(self).collections@, id_or_name@)
                    == old(self).collections@.len() && *final(self) == *old(self),
            },
    {
        let j = self.find_index(id_or_name);
        proof {
            lemma_find_col(self.collections@, id_or_name@);
        }
        if j == self.collections.len() {
            return Err(RagError::CollectionNotFound(String::from_str(id_or_name)));
        }
        let cid = self.collections[j].id.clone();
        let ghost pre = *self;
        let ghost gcid = pre.collections@[j as int].id@;

        // chunks first
        let ghost keep_c = |c: Chunk| c.collection_id@ != gcid;
        let mut i: usize = 0;
        let ghost k: int = 0;
        let ghost old_chunks = self.chunks@;
        while i < self.chunks.len()
            invariant
                cid@ == gcid,
                0 <= k <= old_chunks.len(),
                i as int == old_chunks.subrange(0, k).filter(keep_c).len(),
                self.chunks@ == old_chunks.subrange(0, k).filter(keep_c) + old_chunks.subrange(
                    k,
                    old_chunks.len() as int,
                ),
                i <= self.chunks@.len(),
                keep_c == (|c: Chunk| c.collection_id@ != gcid),
                self.collections == pre.collections,
                self.documents == pre.documents,
            decreases old_chunks.len() - k,
    {
            proof {
                assert(self.chunks@[i as int] == old_chunks[k]);
                lemma_filter_push(old_chunks.subrange(0, k), keep_c, old_chunks[k]);
                assert(old_chunks.subrange(0, k).push(old_chunks[k]) =~= old_chunks.subrange(
                    0,
                    k + 1,
                ));
            }
            if str_eq(self.chunks[i].collection_id.as_str(), cid.as_str()) {
                let _ = self.chunks.remove(i);
                proof {
                    assert(self.chunks@ =~= old_chunks.subrange(0, k + 1).filter(keep_c)
                        + old_chunks.subrange(k + 1, old_chunks.len() as int));
                }
            } else {
                i = i + 1;
                proof {
                    assert(self.chunks@ =~= old_chunks.subrange(0, k + 1).filter(keep_c)
                        + old_chunks.subrange(k + 1, old_chunks.len() as int));
                }
            }
            proof {
                k = k + 1;
            }
        }
        proof {
            assert(old_chunks.subrange(k, old_chunks.len() as int).len() == 0);
            assert(k == old_chunks.len());
            assert(old_chunks.subrange(0, k) =~= old_chunks);
            assert(self.chunks@ =~= old_chunks.filter(keep_c));
        }

        // then documents
        let ghost keep_d = |d: DocumentRec| d.collection_id@ != gcid;
        let mut i2: usize = 0;
        let ghost k2: int = 0;
        let ghost old_docs = self.documents@;
        while i2 < self.documents.len()
            invariant
                cid@ == gcid,
                0 <= k2 <= old_docs.len(),
                i2 as int == old_docs.subrange(0, k2).filter(keep_d).len(),
                self.documents@ == old_docs.subrange(0, k2).filter(keep_d) + old_docs.subrange(
                    k2,
                    old_docs.len() as int,
                ),
                i2 <= self.documents@.len(),
                keep_d == (|d: DocumentRec| d.collection_id@ != gcid),
                self.collections == pre.collections,
                self.chunks@ == old_chunks.filter(keep_c),
                keep_c == (|c: Chunk| c.collection_id@ != gcid),
            decreases old_docs.len() - k2,
        {
            proof {
                assert(self.documents@[i2 as int] == old_docs[k2]);
                lemma_filter_push(old_docs.subrange(0, k2), keep_d, old_docs[k2]);
                assert(old_docs.subrange(0, k2).push(old_docs[k2]) =~= old_docs.subrange(
                    0,
                    k2 + 1,
                ));
            }
            if str_eq(self.documents[i2].collection_id.as_str(), cid.as_str()) {
                let _ = self.documents.remove(i2);
                proof {
                    assert(self.documents@ =~= old_docs.subrange(0, k2 + 1).filter(keep_d)
                        + old_docs.subrange(k2 + 1, old_docs.len() as int));
                }
            } else {
                i2 = i2 + 1;
                proof {
                    assert(self.documents@ =~= old_docs.subrange(0, k2 + 1).filter(keep_d)
                        + old_docs.subrange(k2 + 1, old_docs.len() as int));
                }
            }
            proof {
                k2 = k2 + 1;
            }
        }
        proof {
            assert(k2 == old_docs.len());
            assert(old_docs.subrange(0, k2) =~= old_docs);
            assert(self.documents@ =~= old_docs.filter(keep_d));
        }

        // finally the collection record itself
        let _ = self.collections.remove(j);
        proof {
            lemma_delete_preserves_wf(pre, *self, j as int, gcid);
        }
        Ok(())
    }
}

/// Options for ingesting documents.
#[derive(Debug, Clone)]
pub struct IngestOptions {
    /// File pattern to match (e.g. `*.txt`).
    pub pattern: Option<String>,
    /// Approximate chunk size in characters.
    pub chunk_size: usize,
    /// Whether PDF files are eligible.
    pub include_pdfs: bool,
}

impl Default for IngestOptions {
    /// No pattern, a one-thousand-character chunk budget, PDFs eligible.
    fn default() -> (r: IngestOptions)
        ensures
            r.pattern is None,
            r.chunk_size == 1000,
            r.include_pdfs,
    {
        IngestOptions { pattern: None, chunk_size: 1000, include_pdfs: true }
    }
}

/// Options for querying.
#[derive(Debug, Clone)]
pub struct QueryOptions {
    /// Number of top results to retrieve.
    pub top_k: usize,
    /// Whether to include sources in the response.
    pub return_sources: bool,
}

impl Default for QueryOptions {
    /// Five results, sources included.
    fn default() -> (r: QueryOptions)
        ensures
            r.top_k == 5,
            r.return_sources,
    {
        QueryOptions { top_k: 5, return_sources: true }
    }
}

/// Statistics of one ingest run.
#[derive(Debug, Clone)]
pub struct IngestStats {
    pub documents_ingested: u32,
    pub chunks_created: u32,
    pub document_ids: Vec<String>,
    pub errors: Vec<String>,
}

impl Default for IngestStats {
    /// All counts zero, no ids, no errors.
    fn default() -> (r: IngestStats)
        ensures
            r.documents_ingested == 0,
            r.chunks_created == 0,
            r.document_ids@.len() == 0,
            r.errors@.len() == 0,
    {
        IngestStats {
            documents_ingested: 0,
            chunks_created: 0,
            document_ids: Vec::new(),
            errors: Vec::new(),
        }
    }
}

/// One source file handed to ingestion: its path and either its extracted
/// text or the message of the failure that kept it from being read.
#[derive(Debug, Clone)]
pub struct SourceFile {
    pub path: String,
    pub content: SourceText,
}

/// Extracted text, or the reason there is none.
#[derive(Debug, Clone)]
pub enum SourceText {
    Text(String),
    Unreadable(String),
}

/// Whether a source file carries extracted text.
pub open spec fn is_text(f: SourceFile) -> bool {
    f.content is Text
}

/// The error-list line of a file that could not be read.
pub open spec fn err_line(f: SourceFile) -> Seq<char> {
    match f.content {
        SourceText::Unreadable(m) => f.path@ + ": "@ + m@,
        SourceText::Text(_) => f.path@,
    }
}

/// The component of `path` after the last slash.
pub open spec fn last_component(s: Seq<char>) -> Seq<char>
    decreases s.len(),
{
    if s.len() == 0 {
        s
    } else if s.last() == '/' {
        Seq::empty()
    } else {
        last_component(s.drop_last()).push(s.last())
    }
}

/// Index of the last dot of `s`, or `-1` if there is none.
pub open spec fn last_dot(s: Seq<char>) -> int
    decreases s.len(),
{
    if s.len() == 0 {
        -1
    } else if s.last() == '.' {
        s.len() - 1
    } else {
        last_dot(s.drop_last())
    }
}

/// The document title derived from a file path: the final path component with
/// a trailing extension removed; `None` when the component is empty.
pub open spec fn title_of(path: Seq<char>) -> Option<Seq<char>> {
    let comp = last_component(path);
    if comp.len() == 0 {
        None
    } else {
        let d = last_dot(comp);
        if d > 0 {
            Some(comp.subrange(0, d))
        } else {
            Some(comp)
        }
    }
}

/// `last_component` is the suffix after the last slash.
pub(crate) proof fn lemma_last_component_determined(s: Seq<char>, k: int)
    requires
        0 <= k <= s.len(),
        k > 0 ==> s[k - 1] == '/',
        forall|i: int| k <= i < s.len() ==> s[i] != '/',
    ensures
        last_component(s) == s.subrange(k, s.len() as int),
    decreases s.len(),
{
    if s.len() == 0 {
        assert(last_component(s) =~= s.subrange(k, s.len() as int));
    } else if s.last() == '/' {
        assert(k == s.len());
        assert(last_component(s) =~= s.subrange(k, s.len() as int));
    } else {
        assert(k < s.len());
        lemma_last_component_determined(s.drop_last(), k);
        assert(s.drop_last().subrange(k, s.len() - 1) =~= s.subrange(k, s.len() - 1));
        assert(last_component(s) =~= s.subrange(k, s.len() as int));
    }
}

/// `last_dot` is the index of the last dot.
proof fn lemma_last_dot_determined(s: Seq<char>, k: int)
    requires
        -1 <= k < s.len(),
        k >= 0 ==> s[k] == '.',
        forall|i: int| k < i < s.len() ==> s[i] != '.',
    ensures
        last_dot(s) == k,
    decreases s.len(),
{
    if s.len() == 0 {
    } else if s.last() == '.' {
        assert(k == s.len() - 1);
    } else {
        lemma_last_dot_determined(s.drop_last(), k);
    }
}

/// The title derived from a file path.
pub fn title_of_path(path: &str) -> (r: Option<String>)
    ensures
        match r {
            Some(t) => title_of(path@) matches Some(v) && v == t@,
            None => title_of(path@) is None,
        },
{
    let v = crate::text::chars_of(path);
    let n = v.len();
    // find the start of the final component
    let mut k: usize = n;
    while k > 0 && v[k - 1] != '/'
        invariant
            n == v@.len(),
            k <= n,
            forall|i: int| k <= i < n ==> v@[i] != '/',
        decreases k,
    {
        k = k - 1;
    }
    proof {
        lemma_last_component_determined(v@, k as int);
    }
    let comp = crate::text::vec_range(&v, k, n);
    let m = comp.len();
    if m == 0 {
        return None;
    }
    // find the last dot of the component
    let mut d: usize = m;
    while d > 0 && comp[d - 1] != '.'
        invariant
            m == comp@.len(),
            d <= m,
            forall|i: int| d <= i < m ==> comp@[i] != '.',
        decreases d,
    {
        d = d - 1;
    }
    proof {
        lemma_last_dot_determined(comp@, d as int - 1);
    }
    if d > 1 {
        let stem = crate::text::vec_range(&comp, 0, d - 1);
        Some(crate::text::string_of(&stem))
    } else {
        Some(crate::text::string_of(&comp))
    }
}

impl RagStore {
    /// Whether some collection has exactly this identifier.
    fn has_collection_id(&self, id: &str) -> (r: bool)
        ensures
            r == has_col_id(self.collections@, id@),
    {
        let n = self.collections.len();
        let mut i: usize = 0;
        while i < n
            invariant
                n == self.collections@.len(),
                i <= n,
                forall|j: int| 0 <= j < i ==> (#[trigger] self.collections@[j]).id@ != id@,
            decreases n - i,
        {
            if str_eq(self.collections[i].id.as_str(), id) {
                proof {
                    assert(has_col_id(self.collections@, id@));
                }
                return true;
            }
            i = i + 1;
        }
        proof {
            if has_col_id(self.collections@, id@) {
                let w = choose|w: int|
                    0 <= w < self.collections@.len() && (#[trigger] self.collections@[w]).id@
                        == id@;
                assert(false);
            }
        }
        false
    }
}

impl RagStore {
    /// Decide the store invariant at run time, for callers that rebuild a
    /// store from an outside source of truth and must not hand verified code
    /// a store below its precondition.
    pub fn check_wf(&self) -> (r: bool)
        ensures
            r == self.wf(),
    {
        let n = self.collections.len();
        let mut i: usize = 0;
        while i < n
            invariant
                n == self.collections@.len(),
                i <= n,
                forall|a: int, b: int|
                    0 <= a < b < n && a < i ==> (#[trigger] self.collections@[a]).id@ != (
                    #[trigger] self.collections@[b]).id@ && self.collections@[a].name@
                        != self.collections@[b].name@,
            decreases n - i,
        {
            let mut j: usize = i + 1;
            while j < n
                invariant
                    n == self.collections@.len(),
                    i < n,
                    i + 1 <= j <= n,
                    forall|b: int|
                        i < b < j ==> (#[trigger] self.collections@[b]).id@
                            != self.collections@[i as int].id@ && self.collections@[b].name@
                            != self.collections@[i as int].name@,
                decreases n - j,
            {
                let same_id = str_eq(
                    self.collections[i].id.as_str(),
                    self.collections[j].id.as_str(),
                );
                let same_name = str_eq(
                    self.collections[i].name.as_str(),
                    self.collections[j].name.as_str(),
                );
                if same_id || same_name {
                    proof {
                        assert(!self.wf());
                    }
                    return false;
                }
                j = j + 1;
            }
            i = i + 1;
        }
        let nd = self.documents.len();
        let mut a: usize = 0;
        while a < nd
            invariant
                nd == self.documents@.len(),
                a <= nd,
                forall|q: int|
                    0 <= q < a ==> has_col_id(
                        self.collections@,
                        (#[trigger] self.documents@[q]).collection_id@,
                    ),
            decreases nd - a,
        {
            if !self.has_collection_id(self.documents[a].collection_id.as_str()) {
                proof {
                    assert(!self.wf());
                }
                return false;
            }
            a = a + 1;
        }
        let nc = self.chunks.len();
        let mut c: usize = 0;
        while c < nc
            invariant
                nc == self.chunks@.len(),
                nd == self.documents@.len(),
                c <= nc,
                forall|q: int| 0 <= q < c ==> #[trigger] chunk_linked(*self, q),
            decreases nc - c,
        {
            let mut d: usize = 0;
            let mut found = false;
            while d < nd && !found
                invariant
                    nc == self.chunks@.len(),
                    nd == self.documents@.len(),
                    c < nc,
                    d <= nd,
                    found ==> chunk_linked(*self, c as int),
                    !found ==> forall|q: int|
                        0 <= q < d ==> !((#[trigger] self.documents@[q]).id@
                            == self.chunks@[c as int].document_id@ && self.documents@[q].collection_id@
                            == self.chunks@[c as int].collection_id@),
                decreases nd - d,
            {
                if str_eq(
                    self.documents[d].id.as_str(),
                    self.chunks[c].document_id.as_str(),
                ) && str_eq(
                    self.documents[d].collection_id.as_str(),
                    self.chunks[c].collection_id.as_str(),
                ) {
                    proof {
                        assert(chunk_linked(*self, c as int));
                    }
                    found = true;
                }
                d = d + 1;
            }
            if !found {
                proof {
                    assert(!chunk_linked(*self, c as int)) by {
                        if chunk_linked(*self, c as int) {
                            let w = choose|w: int|
                                {
                                    &&& 0 <= w < self.documents@.len()
                                    &&& (#[trigger] self.documents@[w]).id@
                                        == self.chunks@[c as int].document_id@
                                    &&& self.documents@[w].collection_id@
                                        == self.chunks@[c as int].collection_id@
                                };
                            assert(false);
                        }
                    }
                    assert(!self.wf());
                }
                return false;
            }
            c = c + 1;
        }
        proof {
            assert(self.wf());
        }
        true
    }
}

/// The embedding stored for chunk `k`, when the provider returned `embs`:
/// the `k`-th vector if there is one, otherwise nothing.
pub open spec fn embedding_for(embs: Option<Vec<Vec<u32>>>, k: int) -> Seq<u32> {
    match embs {
        Some(e) => if 0 <= k < e@.len() {
            e@[k]@
        } else {
            Seq::empty()
        },
        None => Seq::empty(),
    }
}

impl RagStore {
    /// Record one extracted document: one document row and one chunk row per
    /// chunk text, orders contiguous from zero, each chunk carrying its
    /// embedding where the provider supplied one.
    ///
    /// `collection_id` must be the exact identifier; the call fails with
    /// `CollectionNotFound` when no collection has it, and succeeds otherwise.
    pub fn record_document(
        &mut self,
        collection_id: &str,
        path: &str,
        chunks: &Vec<String>,
        embeddings: &Option<Vec<Vec<u32>>>,
    ) -> (r: Result<(String, u32), RagError>)
        requires
            old(self).wf(),
        ensures
            final(self).wf(),
            !has_col_id(old(self).collections@, collection_id@) ==> (r matches Err(
                RagError::CollectionNotFound(s),
            ) && s@ == collection_id@ && *final(self) == *old(self)),
            has_col_id(old(self).collections@, collection_id@) ==> (r matches Ok(p) && {
                let base = old(self).chunks@.len() as int;
                &&& p.1 == chunks@.len() as u32
                &&& final(self).collections@ == old(self).collections@
                &&& final(self).documents@.len() == old(self).documents@.len() + 1
                &&& final(self).documents@.subrange(0, old(self).documents@.len() as int) == old(
                    self,
                ).documents@
                &&& final(self).documents@.last().id@ == p.0@
                &&& final(self).documents@.last().collection_id@ == collection_id@
                &&& final(self).documents@.last().path@ == path@
                &&& (match title_of(path@) {
                    Some(t) => final(self).documents@.last().title matches Some(u) && u@ == t,
                    None => final(self).documents@.last().title is None,
                })
                &&& final(self).chunks@.len() == base + chunks@.len()
                &&& final(self).chunks@.subrange(0, base) == old(self).chunks@
                &&& forall|k: int|
                    0 <= k < chunks@.len() ==> {
                        &&& (#[trigger] final(self).chunks@[base + k]).document_id@ == p.0@
                        &&& final(self).chunks@[base + k].collection_id@ == collection_id@
                        &&& final(self).chunks@[base + k].text@ == chunks@[k]@
                        &&& final(self).chunks@[base + k].order == k as i32
                        &&& final(self).chunks@[base + k].embedding@ == embedding_for(
                            *embeddings,
                            k,
                        )
                    }
            }),
    {
        // the collection must exist, so that children never outlive parents
        if !self.has_collection_id(collection_id) {
            return Err(RagError::CollectionNotFound(String::from_str(collection_id)));
        }
        let doc_id = fresh_id();
        let created_at = now_rfc3339();
        let title = title_of_path(path);
        let ghost pre = *self;
        let doc = DocumentRec {
            id: doc_id.clone(),
            collection_id: String::from_str(collection_id),
            path: String::from_str(path),
            title,
            created_at,
        };
        self.documents.push(doc);
        proof {
            assert(self.documents@.subrange(0, pre.documents@.len() as int) =~= pre.documents@);
            assert forall|a: int|
                0 <= a < self.documents@.len() implies has_col_id(
                self.collections@,
                (#[trigger] self.documents@[a]).collection_id@,
            ) by {
                if a < self.documents@.len() - 1 {
                    assert(self.documents@[a] == pre.documents@[a]);
                    assert(has_col_id(pre.collections@, pre.documents@[a].collection_id@));
                }
            }
            assert forall|a: int| 0 <= a < self.chunks@.len() implies #[trigger] chunk_linked(
                *self,
                a,
            ) by {
                assert(chunk_linked(pre, a));
                let pd = choose|pd: int|
                    {
                        &&& 0 <= pd < pre.documents@.len()
                        &&& (#[trigger] pre.documents@[pd]).id@ == pre.chunks@[a].document_id@
                        &&& pre.documents@[pd].collection_id@ == pre.chunks@[a].collection_id@
                    };
                assert(0 <= pd < self.documents@.len() && self.documents@[pd].id@
                    == self.chunks@[a].document_id@ && self.documents@[pd].collection_id@
                    == self.chunks@[a].collection_id@);
            }
        }
        let ghost mid = *self;
        let ghost base = pre.chunks@.len() as int;
        let ghost doc_index = pre.documents@.len() as int;
        let m = chunks.len();
        let mut k: usize = 0;
        while k < m
            invariant
                mid.wf(),
                m == chunks@.len(),
                k <= m,
                self.collections == mid.collections,
                self.documents == mid.documents,
                0 <= doc_index,
                doc_index == mid.documents@.len() - 1,
                mid.documents@[doc_index].id@ == doc_id@,
                mid.documents@[doc_index].collection_id@ == collection_id@,
                base == mid.chunks@.len(),
                self.chunks@.len() == base + k,
                self.chunks@.subrange(0, base) == mid.chunks@,
                forall|q: int|
                    0 <= q < k ==> {
                        &&& (#[trigger] self.chunks@[base + q]).document_id@ == doc_id@
                        &&& self.chunks@[base + q].collection_id@ == collection_id@
                        &&& self.chunks@[base + q].text@ == chunks@[q]@
                        &&& self.chunks@[base + q].order == q as i32
                        &&& self.chunks@[base + q].embedding@ == embedding_for(*embeddings, q)
                    },
            decreases m - k,
        {
            let chunk_id = fresh_id();
            let embedding: Vec<u32> = match embeddings {
                Some(e) => {
                    if k < e.len() {
                        crate::text::copy_u32s(&e[k])
                    } else {
                        Vec::new()
                    }
                },
                None => Vec::new(),
            };
            let rec = Chunk {
                id: chunk_id,
                document_id: doc_id.clone(),
                collection_id: String::from_str(collection_id),
                text: chunks[k].clone(),
                embedding,
                order: #[verifier::truncate] (k as i32),
            };
            self.chunks.push(rec);
            k = k + 1;
            proof {
                assert(self.chunks@.subrange(0, base) =~= mid.chunks@);
            }
        }
        proof {
            assert forall|a: int| 0 <= a < self.chunks@.len() implies #[trigger] chunk_linked(
                *self,
                a,
            ) by {
                if a < base {
                    assert(self.chunks@[a] == mid.chunks@[a]);
                    assert(chunk_linked(mid, a));
                    let pd = choose|pd: int|
                        {
                            &&& 0 <= pd < mid.documents@.len()
                            &&& (#[trigger] mid.documents@[pd]).id@ == mid.chunks@[a].document_id@
                            &&& mid.documents@[pd].collection_id@ == mid.chunks@[a].collection_id@
                        };
                    assert(0 <= pd < self.documents@.len() && self.documents@[pd].id@
                        == self.chunks@[a].document_id@ && self.documents@[pd].collection_id@
                        == self.chunks@[a].collection_id@);
                } else {
                    let q = a - base;
                    assert(self.chunks@[base + q].document_id@ == doc_id@);
                    assert(self.chunks@[base + q].collection_id@ == collection_id@);
                    assert(0 <= doc_index < self.documents@.len() && self.documents@[doc_index].id@
                        == self.chunks@[a].document_id@
                        && self.documents@[doc_index].collection_id@
                        == self.chunks@[a].collection_id@);
                }
            }
            assert(self.chunks@.subrange(0, base) =~= pre.chunks@);
            assert(self.documents@.subrange(0, pre.documents@.len() as int) =~= pre.documents@);
        }
        Ok((doc_id, #[verifier::truncate] (m as u32)))
    }
}

/// The texts of the chunk rows `base .. base + m`.
pub open spec fn row_texts(chunks: Seq<Chunk>, base: int, m: int) -> Seq<Seq<char>> {
    Seq::new(m as nat, |k: int| chunks[base + k].text@)
}

/// Document `d` and the chunk run `base .. base + m` record file `f` in
/// collection `cid`: the document carries the file's path and its derived
/// title, every row of the run belongs to that document and to `cid` with
/// orders counted from zero, each row text is a well-formed chunk within the
/// `cap` budget, the rows carry exactly the visible characters of the file's
/// text, and their texts are exactly the chunk list the splitter defines for
/// that text under that budget.
pub open spec fn file_recorded(
    store: RagStore,
    d: int,
    base: int,
    m: int,
    f: SourceFile,
    cid: Seq<char>,
    cap: int,
) -> bool {
    &&& 0 <= d < store.documents@.len()
    &&& store.documents@[d].collection_id@ == cid
    &&& store.documents@[d].path@ == f.path@
    &&& (match title_of(f.path@) {
        Some(t) => store.documents@[d].title matches Some(u) && u@ == t,
        None => store.documents@[d].title is None,
    })
    &&& 0 <= m
    &&& 0 <= base
    &&& base + m <= store.chunks@.len()
    &&& forall|k: int|
        0 <= k < m ==> {
            &&& (#[trigger] store.chunks@[base + k]).document_id@ == store.documents@[d].id@
            &&& store.chunks@[base + k].collection_id@ == cid
            &&& store.chunks@[base + k].order == k as i32
            &&& crate::chunker::chunk_wf(store.chunks@[base + k].text@)
            &&& crate::chunker::chunk_sized(store.chunks@[base + k].text@, cap)
        }
    &&& (match f.content {
        SourceText::Text(t) => {
            &&& crate::text::visible_all(row_texts(store.chunks@, base, m))
                == crate::text::visible(t@)
            &&& row_texts(store.chunks@, base, m) == crate::chunker::chunks_of_text(t@, cap)
        },
        SourceText::Unreadable(_) => false,
    })
}

impl RagStore {
    /// Ingest a batch of already-extracted files into the collection
    /// addressed by `id_or_name`.
    ///
    /// Each readable file becomes one document whose text is chunked with the
    /// configured budget; each unreadable file only adds one line to the
    /// error list, and never aborts the batch.  An ingest of nothing but
    /// unreadable files still returns statistics, not an error.
    ///
    /// This batch entry records no embeddings: vectors come from the
    /// embedding provider, which the caller drives one document at a time
    /// through `record_document` after chunking; a provider failure there
    /// simply leaves that document's rows without vectors.
    pub fn ingest(&mut self, id_or_name: &str, files: &Vec<SourceFile>, options: &IngestOptions)
        -> (r: Result<IngestStats, RagError>)
        requires
            old(self).wf(),
        ensures
            final(self).wf(),
            find_col(old(self).collections@, id_or_name@) == old(self).collections@.len() ==> (r
                matches Err(RagError::CollectionNotFound(s)) && s@ == id_or_name@ && *final(self)
                == *old(self)),
            find_col(old(self).collections@, id_or_name@) < old(self).collections@.len() ==> (r
                matches Ok(stats) && {
                let cid = old(self).collections@[find_col(
                    old(self).collections@,
                    id_or_name@,
                )].id@;
                let ingested = files@.filter(|f: SourceFile| is_text(f)).len();
                &&& final(self).collections@ == old(self).collections@
                &&& final(self).documents@.len() == old(self).documents@.len() + ingested
                &&& final(self).documents@.subrange(0, old(self).documents@.len() as int) == old(
                    self,
                ).documents@
                &&& forall|k: int|
                    old(self).documents@.len() <= k < final(self).documents@.len() ==> (
                    #[trigger] final(self).documents@[k]).collection_id@ == cid
                &&& final(self).chunks@.subrange(0, old(self).chunks@.len() as int) == old(
                    self,
                ).chunks@
                &&& forall|k: int|
                    old(self).chunks@.len() <= k < final(self).chunks@.len() ==> (
                    #[trigger] final(self).chunks@[k]).collection_id@ == cid
                &&& stats.documents_ingested == ingested as u32
                &&& stats.document_ids@.len() == ingested
                &&& stats.chunks_created == (final(self).chunks@.len() - old(
                    self,
                ).chunks@.len()) as u32
                &&& str_views(stats.errors@) == files@.filter(
                    |f: SourceFile| !is_text(f),
                ).map_values(|f: SourceFile| err_line(f))
                &&& forall|i: int|
                    0 <= i < files@.len() && is_text(#[trigger] files@[i]) ==> exists|
                        d: int,
                        base: int,
                        m: int,
                    |
                        file_recorded(
                            *final(self),
                            d,
                            base,
                            m,
                            files@[i],
                            cid,
                            options.chunk_size as int,
                        )
            }),
    {
        let j = self.find_index(id_or_name);
        proof {
            lemma_find_col(self.collections@, id_or_name@);
        }
        if j == self.collections.len() {
            return Err(RagError::CollectionNotFound(String::from_str(id_or_name)));
        }
        let cid = self.collections[j].id.clone();
        let chunks_before = self.chunks.len();
        let ghost gcid = cid@;
        let ghost pre = *self;
        let ghost is_text_p = |f: SourceFile| is_text(f);
        let ghost is_err_p = |f: SourceFile| !is_text(f);
        let ghost line_of_p = |f: SourceFile| err_line(f);
        let n = files.len();
        let mut document_ids: Vec<String> = Vec::new();
        let mut errors: Vec<String> = Vec::new();
        let mut i: usize = 0;
        proof {
            assert(files@.subrange(0, 0).filter(is_text_p) =~= Seq::<SourceFile>::empty());
            assert(files@.subrange(0, 0).filter(is_err_p) =~= Seq::<SourceFile>::empty());
            assert(str_views(errors@) =~= files@.subrange(0, 0).filter(is_err_p).map_values(
                line_of_p,
            ));
            assert(self.documents@.subrange(0, pre.documents@.len() as int) =~= pre.documents@);
            assert(self.chunks@.subrange(0, pre.chunks@.len() as int) =~= pre.chunks@);
        }
        while i < n
            invariant
                self.wf(),
                n == files@.len(),
                i <= n,
                cid@ == gcid,
                gcid == pre.collections@[find_col(pre.collections@, id_or_name@)].id@,
                has_col_id(self.collections@, gcid),
                self.collections@ == pre.collections@,
                self.documents@.len() == pre.documents@.len() + files@.subrange(
                    0,
                    i as int,
                ).filter(is_text_p).len(),
                self.documents@.subrange(0, pre.documents@.len() as int) == pre.documents@,
                forall|k: int|
                    pre.documents@.len() <= k < self.documents@.len() ==> (
                    #[trigger] self.documents@[k]).collection_id@ == gcid,
                self.chunks@.len() >= pre.chunks@.len(),
                chunks_before == pre.chunks@.len(),
                self.chunks@.subrange(0, pre.chunks@.len() as int) == pre.chunks@,
                forall|k: int|
                    pre.chunks@.len() <= k < self.chunks@.len() ==> (
                    #[trigger] self.chunks@[k]).collection_id@ == gcid,
                document_ids@.len() == files@.subrange(0, i as int).filter(is_text_p).len(),
                forall|ii: int|
                    0 <= ii < i && is_text(#[trigger] files@[ii]) ==> exists|
                        d: int,
                        base: int,
                        m: int,
                    | file_recorded(*self, d, base, m, files@[ii], gcid, options.chunk_size as int),
                str_views(errors@) == files@.subrange(0, i as int).filter(is_err_p).map_values(
                    line_of_p,
                ),
                is_text_p == (|f: SourceFile| is_text(f)),
                is_err_p == (|f: SourceFile| !is_text(f)),
                line_of_p == (|f: SourceFile| err_line(f)),
            decreases n - i,
        {
            let ghost fprefix = files@.subrange(0, i as int);
            proof {
                assert(files@.subrange(0, i as int + 1) =~= fprefix.push(files@[i as int]));
                lemma_filter_push(fprefix, is_text_p, files@[i as int]);
                lemma_filter_push(fprefix, is_err_p, files@[i as int]);
            }
            let f = &files[i];
            match &f.content {
                SourceText::Text(text) => {
                    let chunks = crate::chunker::chunk_text(text.as_str(), options.chunk_size);
                    let ghost before = *self;
                    let outcome = self.record_document(cid.as_str(), f.path.as_str(), &chunks, &None);
                    proof {
                        assert(has_col_id(before.collections@, cid@));
                    }
                    match outcome {
                        Ok((doc_id, _count)) => {
                            document_ids.push(doc_id);
                            proof {
                                assert(self.documents@.subrange(0, pre.documents@.len() as int)
                                    =~= pre.documents@) by {
                                    assert(self.documents@.subrange(
                                        0,
                                        before.documents@.len() as int,
                                    ) == before.documents@);
                                    assert forall|k: int|
                                        0 <= k < pre.documents@.len() implies self.documents@[k]
                                        == pre.documents@[k] by {
                                        assert(before.documents@[k] == before.documents@.subrange(
                                            0,
                                            pre.documents@.len() as int,
                                        )[k]);
                                        assert(self.documents@[k] == self.documents@.subrange(
                                            0,
                                            before.documents@.len() as int,
                                        )[k]);
                                    }
                                }
                                assert(self.chunks@.subrange(0, pre.chunks@.len() as int)
                                    =~= pre.chunks@) by {
                                    assert(self.chunks@.subrange(0, before.chunks@.len() as int)
                                        == before.chunks@);
                                    assert forall|k: int|
                                        0 <= k < pre.chunks@.len() implies self.chunks@[k]
                                        == pre.chunks@[k] by {
                                        assert(before.chunks@[k] == before.chunks@.subrange(
                                            0,
                                            pre.chunks@.len() as int,
                                        )[k]);
                                        assert(self.chunks@[k] == self.chunks@.subrange(
                                            0,
                                            before.chunks@.len() as int,
                                        )[k]);
                                    }
                                }
                                assert forall|k: int|
                                    pre.documents@.len() <= k
                                        < self.documents@.len() implies (
                                #[trigger] self.documents@[k]).collection_id@ == gcid by {
                                    if k < before.documents@.len() {
                                        assert(self.documents@[k] == self.documents@.subrange(
                                            0,
                                            before.documents@.len() as int,
                                        )[k]);
                                        assert(before.documents@[k].collection_id@ == gcid);
                                    } else {
                                        assert(k == self.documents@.len() - 1);
                                        assert(self.documents@.last().collection_id@ == cid@);
                                    }
                                }
                                assert forall|k: int|
                                    pre.chunks@.len() <= k < self.chunks@.len() implies (
                                #[trigger] self.chunks@[k]).collection_id@ == gcid by {
                                    if k < before.chunks@.len() {
                                        assert(self.chunks@[k] == self.chunks@.subrange(
                                            0,
                                            before.chunks@.len() as int,
                                        )[k]);
                                        assert(before.chunks@[k].collection_id@ == gcid);
                                    } else {
                                        let q = k - before.chunks@.len();
                                        assert(self.chunks@[before.chunks@.len() + q].collection_id@
                                            == cid@);
                                    }
                                }
                                // this file's freshly recorded document and rows
                                let cap = options.chunk_size as int;
                                let nd = self.documents@.len() - 1;
                                let nbase = before.chunks@.len() as int;
                                let nm = chunks@.len() as int;
                                assert forall|k: int|
                                    0 <= k < nm implies (#[trigger] self.chunks@[nbase + k]).text@
                                    == chunks@[k]@ && crate::chunker::chunk_wf(
                                    self.chunks@[nbase + k].text@,
                                ) && crate::chunker::chunk_sized(
                                    self.chunks@[nbase + k].text@,
                                    cap,
                                ) by {
                                    assert(crate::chunker::chunk_wf((chunks@[k])@));
                                    assert(crate::chunker::chunk_sized((chunks@[k])@, cap));
                                }
                                assert(row_texts(self.chunks@, nbase, nm) =~= str_views(chunks@));
                                assert(file_recorded(
                                    *self,
                                    nd,
                                    nbase,
                                    nm,
                                    files@[i as int],
                                    gcid,
                                    cap,
                                ));
                                // files recorded earlier keep their witnesses
                                assert forall|ii: int|
                                    0 <= ii < i + 1 && is_text(
                                        #[trigger] files@[ii],
                                    ) implies exists|d: int, base: int, m: int|
                                    file_recorded(
                                        *self,
                                        d,
                                        base,
                                        m,
                                        files@[ii],
                                        gcid,
                                        cap,
                                    ) by {
                                    if ii < i {
                                        let (d, base, m) = choose|d: int, base: int, m: int|
                                            file_recorded(
                                                before,
                                                d,
                                                base,
                                                m,
                                                files@[ii],
                                                gcid,
                                                cap,
                                            );
                                        assert(self.documents@[d] == self.documents@.subrange(
                                            0,
                                            before.documents@.len() as int,
                                        )[d]);
                                        assert(self.documents@[d] == before.documents@[d]);
                                        assert forall|k: int|
                                            0 <= k < m implies #[trigger] self.chunks@[base + k]
                                            == before.chunks@[base + k] by {
                                            assert(self.chunks@[base + k]
                                                == self.chunks@.subrange(
                                                0,
                                                before.chunks@.len() as int,
                                            )[base + k]);
                                        }
                                        assert(row_texts(self.chunks@, base, m) =~= row_texts(
                                            before.chunks@,
                                            base,
                                            m,
                                        ));
                                        assert(file_recorded(
                                            *self,
                                            d,
                                            base,
                                            m,
                                            files@[ii],
                                            gcid,
                                            cap,
                                        ));
                                    } else {
                                        assert(file_recorded(
                                            *self,
                                            nd,
                                            nbase,
                                            nm,
                                            files@[ii],
                                            gcid,
                                            cap,
                                        ));
                                    }
                                }
                            }
                        },
                        Err(_) => {
                            proof {
                                assert(false);
                            }
                        },
                    }
                },
                SourceText::Unreadable(msg) => {
                    let mut line = f.path.clone();
                    line.append(": ");
                    line.append(msg.as_str());
                    let ghost pre_errors = errors@;
                    let ghost lv = line@;
                    errors.push(line);
                    proof {
                        crate::text::lemma_str_views_push(pre_errors, errors@.last());
                        assert(lv == err_line(files@[i as int]));
                        assert(str_views(errors@) =~= fprefix.push(files@[i as int]).filter(
                            is_err_p,
                        ).map_values(line_of_p));
                    }
                },
            }
            i = i + 1;
        }
        proof {
            assert(files@.subrange(0, n as int) =~= files@);
        }
        let documents_ingested = #[verifier::truncate] (document_ids.len() as u32);
        let chunks_created = #[verifier::truncate] ((self.chunks.len() - chunks_before) as u32);
        Ok(IngestStats { documents_ingested, chunks_created, document_ids, errors })
    }
}

/// Whether the shell-style pattern is well-formed, as `glob` decides it.
pub uninterp spec fn glob_pattern_ok(pattern: Seq<char>) -> bool;

/// Whether the well-formed shell-style pattern matches the path, as `glob`
/// decides it.
pub uninterp spec fn glob_matches(pattern: Seq<char>, path: Seq<char>) -> bool;

/// Relies on `glob::Pattern::new` and `glob::Pattern::matches`: `None` when
/// the pattern does not compile, otherwise whether it matches the path.  Both
/// depend on their arguments alone.
#[verifier::external_body]
fn glob_match(pattern: &str, path: &str) -> (r: Option<bool>)
    ensures
        r is Some <==> glob_pattern_ok(pattern@),
        r matches Some(m) ==> m == glob_matches(pattern@, path@),
{
    match glob::Pattern::new(pattern) {
        Ok(p) => Some(p.matches(path)),
        Err(_) => None,
    }
}

/// The extension of the path's final component: what follows the last dot,
/// when that dot is not the component's first character; empty otherwise.
pub open spec fn ext_of(path: Seq<char>) -> Seq<char> {
    let comp = last_component(path);
    let d = last_dot(comp);
    if d > 0 {
        comp.subrange(d + 1, comp.len() as int)
    } else {
        Seq::empty()
    }
}

/// The extension of a file path.
pub fn ext_of_path(path: &str) -> (r: String)
    ensures
        r@ == ext_of(path@),
{
    let v = crate::text::chars_of(path);
    let n = v.len();
    let mut k: usize = n;
    while k > 0 && v[k - 1] != '/'
        invariant
            n == v@.len(),
            k <= n,
            forall|i: int| k <= i < n ==> v@[i] != '/',
        decreases k,
    {
        k = k - 1;
    }
    proof {
        lemma_last_component_determined(v@, k as int);
    }
    let comp = crate::text::vec_range(&v, k, n);
    let m = comp.len();
    let mut d: usize = m;
    while d > 0 && comp[d - 1] != '.'
        invariant
            m == comp@.len(),
            d <= m,
            forall|i: int| d <= i < m ==> comp@[i] != '.',
        decreases d,
    {
        d = d - 1;
    }
    proof {
        lemma_last_dot_determined(comp@, d as int - 1);
    }
    if d > 1 {
        let ext = crate::text::vec_range(&comp, d, m);
        crate::text::string_of(&ext)
    } else {
        String::new()
    }
}

/// A hidden path component begins at `i`: a dot right after a slash (or at
/// the start) opening a name other than the `.` and `..` navigation entries.
pub open spec fn hidden_at(s: Seq<char>, i: int) -> bool {
    &&& 0 <= i < s.len()
    &&& (i == 0 || s[i - 1] == '/')
    &&& s[i] == '.'
    &&& !(i + 1 == s.len() || s[i + 1] == '/')
    &&& !(i + 2 <= s.len() && s[i + 1] == '.' && (i + 2 == s.len() || s[i + 2] == '/'))
}

/// Whether any component of the path is hidden.
pub open spec fn has_hidden_component(s: Seq<char>) -> bool {
    exists|i: int| #[trigger] hidden_at(s, i)
}

/// Whether any component of the path is hidden.
fn path_has_hidden_component(path: &str) -> (r: bool)
    ensures
        r == has_hidden_component(path@),
{
    let v = crate::text::chars_of(path);
    let n = v.len();
    let mut i: usize = 0;
    while i < n
        invariant
            n == v@.len(),
            v@ == path@,
            i <= n,
            forall|j: int| 0 <= j < i ==> !#[trigger] hidden_at(path@, j),
        decreases n - i,
    {
        let at_start = i == 0 || v[i - 1] == '/';
        if at_start && v[i] == '.' {
            let name_continues = !(n - i == 1 || v[i + 1] == '/');
            let is_parent_entry = n - i >= 2 && v[i + 1] == '.' && (n - i == 2 || v[i + 2] == '/');
            if name_continues && !is_parent_entry {
                proof {
                    assert(hidden_at(path@, i as int));
                }
                return true;
            }
        }
        i = i + 1;
    }
    proof {
        if has_hidden_component(path@) {
            let j = choose|j: int| hidden_at(path@, j);
            assert(false);
        }
    }
    false
}

/// The code and text extensions accepted for ingestion.
pub open spec fn ingestible_ext(e: Seq<char>) -> bool {
    ||| e == "txt"@
    ||| e == "md"@
    ||| e == "rs"@
    ||| e == "py"@
    ||| e == "js"@
    ||| e == "ts"@
    ||| e == "go"@
    ||| e == "java"@
    ||| e == "c"@
    ||| e == "cpp"@
    ||| e == "h"@
    ||| e == "hpp"@
    ||| e == "json"@
    ||| e == "yaml"@
    ||| e == "yml"@
    ||| e == "toml"@
}

/// Whether a candidate file takes part in ingestion: no path component may
/// be hidden, the extension must be in the accepted set (or `pdf` while PDFs
/// are enabled), and a caller-supplied glob pattern, when it is well-formed,
/// must match the path; a pattern that does not compile filters nothing out.
pub fn should_ingest_file(path: &str, options: &IngestOptions) -> (r: bool)
    ensures
        r == ({
            let e = ext_of(path@);
            let ext_ok = ingestible_ext(e) || (e == "pdf"@ && options.include_pdfs);
            let pattern_ok = match options.pattern {
                Some(p) => !glob_pattern_ok(p@) || glob_matches(p@, path@),
                None => true,
            };
            !has_hidden_component(path@) && ext_ok && pattern_ok
        }),
{
    if path_has_hidden_component(path) {
        return false;
    }
    let ext = ext_of_path(path);
    let e = ext.as_str();
    let ext_ok = str_eq(e, "txt") || str_eq(e, "md") || str_eq(e, "rs") || str_eq(e, "py")
        || str_eq(e, "js") || str_eq(e, "ts") || str_eq(e, "go") || str_eq(e, "java") || str_eq(
        e,
        "c",
    ) || str_eq(e, "cpp") || str_eq(e, "h") || str_eq(e, "hpp") || str_eq(e, "json") || str_eq(
        e,
        "yaml",
    ) || str_eq(e, "yml") || str_eq(e, "toml") || (options.include_pdfs && str_eq(e, "pdf"));
    let pattern_ok = match &options.pattern {
        Some(p) => match glob_match(p.as_str(), path) {
            Some(m) => m,
            None => true,
        },
        None => true,
    };
    ext_ok && pattern_ok
}

/// Removing a collection together with all of its documents and chunks
/// preserves the store invariant.
proof fn lemma_delete_preserves_wf(pre: RagStore, post: RagStore, j: int, cid: Seq<char>)
    requires
        pre.wf(),
        0 <= j < pre.collections@.len(),
        cid == pre.collections@[j].id@,
        post.collections@ == pre.collections@.remove(j),
        post.documents@ == pre.documents@.filter(|d: DocumentRec| d.collection_id@ != cid),
        post.chunks@ == pre.chunks@.filter(|c: Chunk| c.collection_id@ != cid),
    ensures
        post.wf(),
{
    broadcast use vstd::seq_lib::group_filter_ensures;

    let keep_d = |d: DocumentRec| d.collection_id@ != cid;
    let keep_c = |c: Chunk| c.collection_id@ != cid;
    assert forall|a: int, b: int| 0 <= a < b < post.collections@.len() implies (
    #[trigger] post.collections@[a]).id@ != (#[trigger] post.collections@[b]).id@ && (
    #[trigger] post.collections@[a]).name@ != (#[trigger] post.collections@[b]).name@ by {
        let pa = if a < j { a } else { a + 1 };
        let pb = if b < j { b } else { b + 1 };
        assert(post.collections@[a] == pre.collections@[pa]);
        assert(post.collections@[b] == pre.collections@[pb]);
    }
    assert forall|a: int| 0 <= a < post.documents@.len() implies has_col_id(
        post.collections@,
        (#[trigger] post.documents@[a]).collection_id@,
    ) by {
        lemma_filter_from(pre.documents@, keep_d, a);
        let pa = choose|pa: int|
            0 <= pa < pre.documents@.len() && #[trigger] pre.documents@[pa] == post.documents@[a];
        assert(has_col_id(pre.collections@, pre.documents@[pa].collection_id@));
        let w = choose|w: int|
            0 <= w < pre.collections@.len() && (#[trigger] pre.collections@[w]).id@
                == pre.documents@[pa].collection_id@;
        assert(keep_d(post.documents@[a]));
        assert(pre.collections@[w].id@ != cid);
        assert(w != j);
        let nw = if w < j { w } else { w - 1 };
        assert(post.collections@[nw] == pre.collections@[w]);
    }
    assert forall|a: int| 0 <= a < post.chunks@.len() implies #[trigger] chunk_linked(
        post,
        a,
    ) by {
        lemma_filter_from(pre.chunks@, keep_c, a);
        let pa = choose|pa: int|
            0 <= pa < pre.chunks@.len() && #[trigger] pre.chunks@[pa] == post.chunks@[a];
        assert(chunk_linked(pre, pa));
        let pd = choose|pd: int|
            {
                &&& 0 <= pd < pre.documents@.len()
                &&& (#[trigger] pre.documents@[pd]).id@ == pre.chunks@[pa].document_id@
                &&& pre.documents@[pd].collection_id@ == pre.chunks@[pa].collection_id@
            };
        assert(keep_c(post.chunks@[a]));
        assert(keep_d(pre.documents@[pd]));
        pre.documents@.lemma_filter_contains(keep_d, pd);
        assert(post.documents@.contains(pre.documents@[pd]));
        let nd = choose|nd: int|
            0 <= nd < post.documents@.len() && #[trigger] post.documents@[nd]
                == pre.documents@[pd];
        assert(0 <= nd < post.documents@.len() && post.documents@[nd].id@
            == post.chunks@[a].document_id@ && post.documents@[nd].collection_id@
            == post.chunks@[a].collection_id@);
    }
}

} // verus!
