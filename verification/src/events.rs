//! The request events the service understands, as plain data.
//!
//! Job deduplication rests on the structural equality of these types, so
//! the ones a job can carry implement `PartialEq` with a proved meaning.

use vstd::prelude::*;
use crate::models::GenericModelConfig;

verus! {

/// Raw image bytes attached to a request.
#[derive(Debug)]
pub struct ImageBytes {
    pub bytes: Vec<u8>,
}

impl View for ImageBytes {
    type V = Seq<u8>;

    open spec fn view(&self) -> Seq<u8> {
        self.bytes@
    }
}

fn bytes_eq(a: &Vec<u8>, b: &Vec<u8>) -> (r: bool)
    ensures
        r == (a@ == b@),
{
    if a.len() != b.len() {
        return false;
    }
    let mut i: usize = 0;
    while i < a.len()
        invariant
            i <= a@.len(),
            a@.len() == b@.len(),
            forall|j: int| 0 <= j < i ==> a@[j] == b@[j],
        decreases a@.len() - i,
    {
        if a[i] != b[i] {
            return false;
        }
        i += 1;
    }
    proof {
        assert(a@ =~= b@);
    }
    true
}

impl Clone for ImageBytes {
    fn clone(&self) -> (r: Self)
        ensures
            r@ == self@,
    {
        let bytes = self.bytes.clone();
        proof {
            assert(bytes@ =~= self.bytes@);
        }
        ImageBytes { bytes }
    }
}

impl PartialEq for ImageBytes {
    fn eq(&self, other: &Self) -> (r: bool)
        ensures
            r == (self@ == other@),
    {
        bytes_eq(&self.bytes, &other.bytes)
    }
}

impl vstd::std_specs::cmp::PartialEqSpecImpl for ImageBytes {
    open spec fn obeys_eq_spec() -> bool {
        true
    }

    open spec fn eq_spec(&self, other: &Self) -> bool {
        self@ == other@
    }
}

/// Where an image comes from: inline bytes, or a remote location to
/// fetch.
#[derive(Debug)]
pub enum ImageSource {
    ImageBytes(ImageBytes),
    Url(String),
}

/// The mathematical model of an image source.
pub enum ImageSourceModel {
    Bytes(Seq<u8>),
    Url(Seq<char>),
}

impl View for ImageSource {
    type V = ImageSourceModel;

    open spec fn view(&self) -> ImageSourceModel {
        match self {
            ImageSource::ImageBytes(b) => ImageSourceModel::Bytes(b@),
            ImageSource::Url(u) => ImageSourceModel::Url(u@),
        }
    }
}

impl Clone for ImageSource {
    fn clone(&self) -> (r: Self)
        ensures
            r@ == self@,
    {
        match self {
            ImageSource::ImageBytes(b) => ImageSource::ImageBytes(b.clone()),
            ImageSource::Url(u) => ImageSource::Url(u.clone()),
        }
    }
}

impl PartialEq for ImageSource {
    fn eq(&self, other: &Self) -> (r: bool)
        ensures
            r == (self@ == other@),
    {
        match (self, other) {
            (ImageSource::ImageBytes(a), ImageSource::ImageBytes(b)) => *a == *b,
            (ImageSource::Url(a), ImageSource::Url(b)) => *a == *b,
            _ => false,
        }
    }
}

impl vstd::std_specs::cmp::PartialEqSpecImpl for ImageSource {
    open spec fn obeys_eq_spec() -> bool {
        true
    }

    open spec fn eq_spec(&self, other: &Self) -> bool {
        self@ == other@
    }
}

/// A request to embed and index one image under an id.
#[derive(Debug)]
pub struct AddImage {
    pub source: ImageSource,
    pub collection_name: String,
    pub id: String,
}

/// The mathematical model of an `AddImage` request.
pub struct AddImageModel {
    pub source: ImageSourceModel,
    pub collection_name: Seq<char>,
    pub id: Seq<char>,
}

impl View for AddImage {
    type V = AddImageModel;

    open spec fn view(&self) -> AddImageModel {
        AddImageModel {
            source: self.source@,
            collection_name: self.collection_name@,
            id: self.id@,
        }
    }
}

impl Clone for AddImage {
    fn clone(&self) -> (r: Self)
        ensures
            r@ == self@,
    {
        AddImage {
            source: self.source.clone(),
            collection_name: self.collection_name.clone(),
            id: self.id.clone(),
        }
    }
}

impl PartialEq for AddImage {
    fn eq(&self, other: &Self) -> (r: bool)
        ensures
            r == (self@ == other@),
    {
        self.source == other.source && self.collection_name == other.collection_name && self.id
            == other.id
    }
}

impl vstd::std_specs::cmp::PartialEqSpecImpl for AddImage {
    open spec fn obeys_eq_spec() -> bool {
        true
    }

    open spec fn eq_spec(&self, other: &Self) -> bool {
        self@ == other@
    }
}

/// A request to search a collection with a probe image.
#[derive(Debug)]
pub struct SearchImage {
    pub source: ImageSource,
    pub collection_name: String,
    pub n_results: usize,
}

/// The mathematical model of a `SearchImage` request.
pub struct SearchImageModel {
    pub source: ImageSourceModel,
    pub collection_name: Seq<char>,
    pub n_results: int,
}

impl View for SearchImage {
    type V = SearchImageModel;

    open spec fn view(&self) -> SearchImageModel {
        SearchImageModel {
            source: self.source@,
            collection_name: self.collection_name@,
            n_results: self.n_results as int,
        }
    }
}

impl Clone for SearchImage {
    fn clone(&self) -> (r: Self)
        ensures
            r@ == self@,
    {
        SearchImage {
            source: self.source.clone(),
            collection_name: self.collection_name.clone(),
            n_results: self.n_results,
        }
    }
}

impl PartialEq for SearchImage {
    fn eq(&self, other: &Self) -> (r: bool)
        ensures
            r == (self@ == other@),
    {
        self.source == other.source && self.collection_name == other.collection_name
            && self.n_results == other.n_results
    }
}

impl vstd::std_specs::cmp::PartialEqSpecImpl for SearchImage {
    open spec fn obeys_eq_spec() -> bool {
        true
    }

    open spec fn eq_spec(&self, other: &Self) -> bool {
        self@ == other@
    }
}

/// A request to tombstone an id in a collection.
#[derive(Debug)]
pub struct RemoveImage {
    pub collection_name: String,
    pub id: String,
}

impl Clone for RemoveImage {
    fn clone(&self) -> (r: Self)
        ensures
            r.collection_name@ == self.collection_name@,
            r.id@ == self.id@,
    {
        RemoveImage { collection_name: self.collection_name.clone(), id: self.id.clone() }
    }
}

/// A request to create a collection if it does not exist yet.
pub struct UpsertCollection {
    pub name: String,
    pub config: GenericModelConfig,
}

/// A request to drop a collection entirely.
pub struct RemoveCollection {
    pub name: String,
}

impl Clone for RemoveCollection {
    fn clone(&self) -> (r: Self)
        ensures
            r.name@ == self.name@,
    {
        RemoveCollection { name: self.name.clone() }
    }
}

/// Any request event the service understands.
pub enum Event {
    AddImage(AddImage),
    RemoveImage(RemoveImage),
    SearchImage(SearchImage),
    UpsertCollection(UpsertCollection),
    RemoveCollection(RemoveCollection),
}

} // verus!
