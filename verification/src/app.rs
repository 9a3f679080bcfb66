//! The application core: named collections of indexed vectors, the
//! deduplicating job queue that feeds them, and the synchronous request
//! paths.
//!
//! Every method here works on plain values. Turning an image into a
//! vector is the embeddings provider's business and happens before these
//! methods are called; running the worker loop and guarding this state
//! for concurrent use belong to the surrounding program.

use vstd::prelude::*;
use crate::db::{
    NeighborModel, RecordModel, VectorIndex, neighbors_view, remove_post, search_results,
};
use crate::errors::ServiceError;
use crate::events::{
    AddImage, AddImageModel, ImageBytes, RemoveCollection, RemoveImage, UpsertCollection,
};
use crate::models::GenericModelConfig;
use crate::work_queue::{WorkQueue, queued};

verus! {

/// A unit of asynchronous work for the ingestion pipeline.
pub enum Job {
    AddImage(AddImage),
}

/// The mathematical model of a job.
pub enum JobModel {
    AddImage(AddImageModel),
}

impl View for Job {
    type V = JobModel;

    open spec fn view(&self) -> JobModel {
        match self {
            Job::AddImage(a) => JobModel::AddImage(a@),
        }
    }
}

impl Clone for Job {
    fn clone(&self) -> (r: Self)
        ensures
            r@ == self@,
    {
        match self {
            Job::AddImage(a) => Job::AddImage(a.clone()),
        }
    }
}

impl PartialEq for Job {
    fn eq(&self, other: &Self) -> (r: bool)
        ensures
            r == (self@ == other@),
    {
        match (self, other) {
            (Job::AddImage(a), Job::AddImage(b)) => *a == *b,
        }
    }
}

impl vstd::std_specs::cmp::PartialEqSpecImpl for Job {
    open spec fn obeys_eq_spec() -> bool {
        true
    }

    open spec fn eq_spec(&self, other: &Self) -> bool {
        self@ == other@
    }
}

/// One search hit as reported to a client.
#[derive(Debug)]
pub struct SingleImageResult {
    pub id: String,
    pub similarity: u32,
}

/// The mathematical model of a reported hit.
pub struct SingleImageResultModel {
    pub id: Seq<char>,
    pub similarity: int,
}

impl View for SingleImageResult {
    type V = SingleImageResultModel;

    open spec fn view(&self) -> SingleImageResultModel {
        SingleImageResultModel { id: self.id@, similarity: self.similarity as int }
    }
}

impl Clone for SingleImageResult {
    fn clone(&self) -> (r: Self)
        ensures
            r@ == self@,
    {
        SingleImageResult { id: self.id.clone(), similarity: self.similarity }
    }
}

/// The ranked hits of one search request.
#[derive(Debug)]
pub struct ImageResult {
    pub collection_name: String,
    pub results: Vec<SingleImageResult>,
}

/// The hit a search reports for the neighbor `n`.
pub open spec fn single_of(n: NeighborModel) -> SingleImageResultModel {
    SingleImageResultModel { id: n.id, similarity: n.distance }
}

/// The models of a vector of reported hits.
pub open spec fn singles_view(v: Seq<SingleImageResult>) -> Seq<SingleImageResultModel> {
    v.map_values(|s: SingleImageResult| s@)
}

/// One named collection: its embedder configuration and its index.
pub struct Collection {
    pub name: String,
    pub model_config: GenericModelConfig,
    pub index: VectorIndex,
}

impl Collection {
    /// A fresh collection with an empty index. Building the embedder
    /// itself from the configuration is slow outside work and happens
    /// before the collection is registered.
    pub fn new(name: &str, model_config: &GenericModelConfig) -> (r: Self)
        ensures
            r.name@ == name@,
            r.model_config@ == model_config@,
            r.index.records() =~= Seq::<RecordModel>::empty(),
            r.index.removed_ids() =~= Seq::<Seq<char>>::empty(),
            r.index.dim is None,
            r.index.wf(),
    {
        Collection {
            name: name.to_owned(),
            model_config: model_config.clone(),
            index: VectorIndex::new(),
        }
    }
}

/// The name-keyed registry of collections.
pub struct CollectionRegistry {
    pub collections: Vec<Collection>,
}

impl CollectionRegistry {
    /// Well-formedness: collection names are distinct and every index is
    /// well-formed.
    pub open spec fn wf(&self) -> bool {
        &&& forall|i: int, j: int|
            0 <= i < j < self.collections@.len() ==> self.collections@[i].name@
                != self.collections@[j].name@
        &&& forall|i: int|
            0 <= i < self.collections@.len() ==> (#[trigger] self.collections@[i]).index.wf()
    }

    /// Whether a collection of this name is registered.
    pub open spec fn contains_name(&self, name: Seq<char>) -> bool {
        exists|i: int|
            0 <= i < self.collections@.len() && (#[trigger] self.collections@[i]).name@ == name
    }

    /// The position of the collection of this name (unique under `wf`).
    pub open spec fn index_of_name(&self, name: Seq<char>) -> int {
        choose|i: int|
            0 <= i < self.collections@.len() && (#[trigger] self.collections@[i]).name@ == name
    }

    /// An empty registry.
    pub fn new() -> (r: Self)
        ensures
            r.wf(),
            r.collections@ =~= Seq::<Collection>::empty(),
    {
        CollectionRegistry { collections: Vec::new() }
    }

    /// Finds the position of the collection named `name`, if any.
    fn find_index(&self, name: &String) -> (r: Option<usize>)
        requires
            self.wf(),
        ensures
            match r {
                Option::Some(i) => {
                    &&& i < self.collections@.len()
                    &&& self.collections@[i as int].name@ == name@
                    &&& self.contains_name(name@)
                    &&& i as int == self.index_of_name(name@)
                },
                Option::None => !self.contains_name(name@),
            },
    {
        let mut i: usize = 0;
        while i < self.collections.len()
            invariant
                i <= self.collections@.len(),
                self.wf(),
                forall|j: int|
                    0 <= j < i ==> (#[trigger] self.collections@[j]).name@ != name@,
            decreases self.collections@.len() - i,
        {
            if self.collections[i].name == *name {
                proof {
                    let j = self.index_of_name(name@);
                    assert(0 <= j < self.collections@.len() && self.collections@[j].name@
                        == name@);
                    if j != i {
                        assert(self.collections@[j].name@ != self.collections@[i as int].name@);
                    }
                }
                return Some(i);
            }
            i += 1;
        }
        None
    }
}

/// The whole application state: worker count, pending jobs, a scratch
/// store for inline image bytes, and the collections.
pub struct EmbeddingApp {
    pub n_workers: usize,
    pub job_queue: WorkQueue<Job>,
    pub images: Vec<(String, ImageBytes)>,
    pub collections: CollectionRegistry,
}

impl EmbeddingApp {
    /// Well-formedness of the whole state.
    pub open spec fn wf(&self) -> bool {
        self.collections.wf()
    }

    /// A fresh application state for `n_workers` workers.
    pub fn new(n_workers: usize) -> (r: Self)
        ensures
            r.wf(),
            r.n_workers == n_workers,
            r.job_queue.inner@ =~= Seq::<Job>::empty(),
            r.images@ =~= Seq::<(String, ImageBytes)>::empty(),
            r.collections.collections@ =~= Seq::<Collection>::empty(),
    {
        EmbeddingApp {
            n_workers,
            job_queue: WorkQueue::new(),
            images: Vec::new(),
            collections: CollectionRegistry::new(),
        }
    }

    /// Creates the named collection if it is absent; an existing
    /// collection is left entirely untouched, so a second upsert under
    /// the same name is a no-op.
    pub fn upsert_collection(&mut self, upsert_collection: &UpsertCollection)
        requires
            old(self).wf(),
        ensures
            final(self).wf(),
            old(self).collections.contains_name(upsert_collection.name@) ==> *final(self) == *old(self),
            !old(self).collections.contains_name(upsert_collection.name@) ==> ({
                let cs = final(self).collections.collections@;
                let old_cs = old(self).collections.collections@;
                &&& final(self).n_workers == old(self).n_workers
                &&& final(self).job_queue == old(self).job_queue
                &&& final(self).images == old(self).images
                &&& cs.len() == old_cs.len() + 1
                &&& cs.take(old_cs.len() as int) =~= old_cs
                &&& cs.last().name@ == upsert_collection.name@
                &&& cs.last().model_config@ == upsert_collection.config@
                &&& cs.last().index.records() =~= Seq::<RecordModel>::empty()
                &&& cs.last().index.removed_ids() =~= Seq::<Seq<char>>::empty()
                &&& cs.last().index.dim is None
            }),
    {
        match self.collections.find_index(&upsert_collection.name) {
            Option::Some(_) => {},
            Option::None => {
                let collection = Collection::new(
                    upsert_collection.name.as_str(),
                    &upsert_collection.config,
                );
                let ghost old_cs = self.collections.collections@;
                self.collections.collections.push(collection);
                proof {
                    let cs = self.collections.collections@;
                    assert(cs.take(old_cs.len() as int) =~= old_cs);
                    assert forall|i: int, j: int|
                        0 <= i < j < cs.len() implies cs[i].name@ != cs[j].name@ by {
                        if j == cs.len() - 1 {
                            assert(!old(self).collections.contains_name(cs[j].name@));
                            assert(cs[i] == old_cs[i]);
                        }
                    }
                    assert forall|i: int| 0 <= i < cs.len() implies (#[trigger] cs[i]).index.wf()
                    by {
                        if i < cs.len() - 1 {
                            assert(cs[i] == old_cs[i]);
                        }
                    }
                }
            },
        }
    }

    /// Drops the named collection and its whole index; absence is a
    /// no-op, not an error.
    pub fn remove_collection(&mut self, remove_collection: &RemoveCollection)
        requires
            old(self).wf(),
        ensures
            final(self).wf(),
            final(self).n_workers == old(self).n_workers,
            final(self).job_queue == old(self).job_queue,
            final(self).images == old(self).images,
            !old(self).collections.contains_name(remove_collection.name@) ==> *final(self) == *old(self),
            old(self).collections.contains_name(remove_collection.name@) ==> final(self).collections.collections@ == old(self).collections.collections@.remove(
                old(self).collections.index_of_name(remove_collection.name@),
            ),
    {
        match self.collections.find_index(&remove_collection.name) {
            Option::Some(i) => {
                let ghost old_cs = self.collections.collections@;
                self.collections.collections.remove(i);
                proof {
                    let cs = self.collections.collections@;
                    assert forall|a: int, b: int|
                        0 <= a < b < cs.len() implies cs[a].name@ != cs[b].name@ by {
                        let a0 = if a < i { a } else { a + 1 };
                        let b0 = if b < i { b } else { b + 1 };
                        assert(cs[a] == old_cs[a0] && cs[b] == old_cs[b0]);
                    }
                    assert forall|a: int| 0 <= a < cs.len() implies (#[trigger] cs[a]).index.wf()
                    by {
                        let a0 = if a < i { a } else { a + 1 };
                        assert(cs[a] == old_cs[a0]);
                    }
                }
            },
            Option::None => {},
        }
    }

    /// Enqueues an ingestion job; a structurally identical pending job is
    /// not queued twice.
    pub fn add_image(&mut self, add_image: AddImage) -> (r: Result<(), ServiceError>)
        requires
            old(self).wf(),
        ensures
            final(self).wf(),
            r is Ok,
            final(self).n_workers == old(self).n_workers,
            final(self).images == old(self).images,
            final(self).collections == old(self).collections,
            final(self).job_queue.inner@ == ({
                let job = Job::AddImage(add_image);
                if queued(old(self).job_queue.inner@, job) {
                    old(self).job_queue.inner@
                } else {
                    old(self).job_queue.inner@.push(job)
                }
            }),
    {
        self.job_queue.add_work(Job::AddImage(add_image));
        Ok(())
    }

    /// Tombstones an id in the named collection's index. A missing
    /// collection is a no-op, not an error.
    pub fn remove_image(&mut self, remove_image: RemoveImage) -> (r: Result<(), ServiceError>)
        requires
            old(self).wf(),
        ensures
            final(self).wf(),
            r is Ok,
            final(self).n_workers == old(self).n_workers,
            final(self).job_queue == old(self).job_queue,
            final(self).images == old(self).images,
            !old(self).collections.contains_name(remove_image.collection_name@) ==> *final(self) == *old(self),
            old(self).collections.contains_name(remove_image.collection_name@) ==> ({
                let i = old(self).collections.index_of_name(remove_image.collection_name@);
                let old_cs = old(self).collections.collections@;
                let cs = final(self).collections.collections@;
                &&& cs =~= old_cs.update(i, cs[i])
                &&& cs[i].name == old_cs[i].name
                &&& cs[i].model_config == old_cs[i].model_config
                &&& remove_post(old_cs[i].index, cs[i].index, remove_image.id@)
            }),
    {
        match self.collections.find_index(&remove_image.collection_name) {
            Option::Some(i) => {
                let ghost old_cs = self.collections.collections@;
                let mut c = self.collections.collections.remove(i);
                c.index.remove(remove_image.id);
                self.collections.collections.insert(i, c);
                proof {
                    let cs = self.collections.collections@;
                    assert(cs =~= old_cs.update(i as int, cs[i as int]));
                    assert forall|a: int, b: int|
                        0 <= a < b < cs.len() implies cs[a].name@ != cs[b].name@ by {
                        assert(old_cs[a].name@ != old_cs[b].name@);
                    }
                    assert forall|a: int| 0 <= a < cs.len() implies (#[trigger] cs[a]).index.wf()
                    by {
                        if a != i {
                            assert(cs[a] == old_cs[a]);
                        }
                    }
                }
            },
            Option::None => {},
        }
        Ok(())
    }

    /// Searches the named collection with an already-embedded query
    /// vector. A missing collection yields an empty result set; a query
    /// of the wrong dimension is rejected.
    pub fn search_image(&self, collection_name: &String, query: &Vec<i32>) -> (r: Result<
        ImageResult,
        ServiceError,
    >)
        requires
            self.wf(),
        ensures
            !self.collections.contains_name(collection_name@) ==> ({
                &&& r is Ok
                &&& r->Ok_0.collection_name@ == collection_name@
                &&& r->Ok_0.results@.len() == 0
            }),
            self.collections.contains_name(collection_name@) ==> ({
                let c = self.collections.collections@[self.collections.index_of_name(
                    collection_name@,
                )];
                match c.index.dim {
                    Some(d) if query@.len() != d => r == Result::<
                        ImageResult,
                        ServiceError,
                    >::Err(ServiceError::DimensionMismatch { expected: d, actual: query.len() }),
                    _ => {
                        &&& r is Ok
                        &&& r->Ok_0.collection_name@ == collection_name@
                        &&& singles_view(r->Ok_0.results@) == search_results(
                            c.index.records(),
                            c.index.removed_ids(),
                            query@,
                        ).map_values(|n: NeighborModel| single_of(n))
                    },
                }
            }),
    {
        match self.collections.find_index(collection_name) {
            Option::Some(i) => {
                let c = &self.collections.collections[i];
                let neighbors = match c.index.search(query) {
                    Result::Ok(neighbors) => neighbors,
                    Result::Err(e) => {
                        return Err(e);
                    },
                };
                let ghost hits = search_results(c.index.records(), c.index.removed_ids(), query@);
                let mut results: Vec<SingleImageResult> = Vec::new();
                let mut k: usize = 0;
                while k < neighbors.len()
                    invariant
                        k <= neighbors@.len(),
                        neighbors_view(neighbors@) == hits,
                        singles_view(results@) =~= hits.take(k as int).map_values(
                            |n: NeighborModel| single_of(n),
                        ),
                    decreases neighbors@.len() - k,
                {
                    let ghost prior = singles_view(results@);
                    results.push(
                        SingleImageResult {
                            id: neighbors[k].id.clone(),
                            similarity: neighbors[k].distance,
                        },
                    );
                    proof {
                        assert(singles_view(results@) =~= prior.push(single_of(hits[k as int])));
                        assert(hits.take(k + 1) =~= hits.take(k as int).push(hits[k as int]));
                        assert(hits.take(k + 1).map_values(|n: NeighborModel| single_of(n))
                            =~= hits.take(k as int).map_values(|n: NeighborModel| single_of(n)).push(
                            single_of(hits[k as int]),
                        ));
                    }
                    k += 1;
                }
                proof {
                    assert(hits.take(hits.len() as int) =~= hits);
                }
                Ok(ImageResult { collection_name: collection_name.clone(), results })
            },
            Option::None => {
                Ok(ImageResult { collection_name: collection_name.clone(), results: Vec::new() })
            },
        }
    }

    /// The write step of the ingestion pipeline: inserts an
    /// already-embedded vector under `id` into the named collection. A
    /// missing collection drops the work with a validation error; a
    /// vector of the wrong dimension is rejected.
    pub fn add_vector_to_collection(
        &mut self,
        collection_name: &String,
        id: String,
        vector: Vec<i32>,
    ) -> (r: Result<(), ServiceError>)
        requires
            old(self).wf(),
        ensures
            final(self).wf(),
            final(self).n_workers == old(self).n_workers,
            final(self).job_queue == old(self).job_queue,
            final(self).images == old(self).images,
            !old(self).collections.contains_name(collection_name@) ==> r == Result::<
                (),
                ServiceError,
            >::Err(ServiceError::Validation) && *final(self) == *old(self),
            old(self).collections.contains_name(collection_name@) ==> ({
                let i = old(self).collections.index_of_name(collection_name@);
                let old_cs = old(self).collections.collections@;
                let cs = final(self).collections.collections@;
                match old_cs[i].index.dim {
                    Some(d) if vector@.len() != d => {
                        &&& r == Result::<(), ServiceError>::Err(
                            ServiceError::DimensionMismatch { expected: d, actual: vector.len() },
                        )
                        &&& cs =~= old_cs
                    },
                    _ => {
                        &&& r is Ok
                        &&& cs =~= old_cs.update(i, cs[i])
                        &&& cs[i].name == old_cs[i].name
                        &&& cs[i].model_config == old_cs[i].model_config
                        &&& cs[i].index.records() == old_cs[i].index.records().push(
                            RecordModel { id: id@, vector: vector@ },
                        )
                        &&& cs[i].index.removed_ids() == old_cs[i].index.removed_ids()
                        &&& cs[i].index.dim == Some(vector.len())
                    },
                }
            }),
    {
        match self.collections.find_index(collection_name) {
            Option::Some(i) => {
                let ghost old_cs = self.collections.collections@;
                let mut c = self.collections.collections.remove(i);
                let res = c.index.insert(vector, id);
                self.collections.collections.insert(i, c);
                proof {
                    let cs = self.collections.collections@;
                    assert(cs =~= old_cs.update(i as int, cs[i as int]));
                    assert forall|a: int, b: int|
                        0 <= a < b < cs.len() implies cs[a].name@ != cs[b].name@ by {
                        assert(old_cs[a].name@ != old_cs[b].name@);
                    }
                    assert forall|a: int| 0 <= a < cs.len() implies (#[trigger] cs[a]).index.wf()
                    by {
                        if a != i {
                            assert(cs[a] == old_cs[a]);
                        }
                    }
                    if res is Err {
                        assert(cs =~= old_cs);
                    }
                }
                res
            },
            Option::None => Err(ServiceError::Validation),
        }
    }
}

} // verus!
