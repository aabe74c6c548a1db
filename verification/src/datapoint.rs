//! A single document: its features, its relevance label and its query.
use vstd::prelude::*;
use crate::error::LtrError;

verus! {

/// What a [`DataPoint`] is, as mathematical values.
pub struct DataPointView {
    /// Relevance: 0 is not relevant, higher is more relevant.
    pub label: nat,
    /// The query this document was retrieved for.
    pub query_id: nat,
    /// Feature values in millionths, by feature index.
    pub features: Seq<int>,
    /// A human-readable name, if any.
    pub description: Option<Seq<char>>,
}

/// One document of a rank list. Feature values are fixed-point, in millionths.
#[derive(Debug, Clone)]
pub struct DataPoint {
    label: u8,
    query_id: u32,
    features: Vec<i64>,
    description: Option<String>,
}

impl View for DataPoint {
    type V = DataPointView;

    closed spec fn view(&self) -> DataPointView {
        DataPointView {
            label: self.label as nat,
            query_id: self.query_id as nat,
            features: self.features@.map_values(|f: i64| f as int),
            description: match self.description {
                Some(s) => Some(s@),
                None => None,
            },
        }
    }
}

impl DataPoint {
    /// Builds a document from its parts.
    pub fn new(label: u8, query_id: u32, features: Vec<i64>, description: Option<String>) -> (dp:
        DataPoint)
        ensures
            dp@.label == label,
            dp@.query_id == query_id,
            dp@.features == features@.map_values(|f: i64| f as int),
            dp@.description == match description {
                Some(s) => Some(s@),
                None => None,
            },
    {
        DataPoint { label, query_id, features, description }
    }

    /// The relevance label.
    pub fn get_label(&self) -> (label: u8)
        ensures
            label == self@.label,
    {
        self.label
    }

    /// The query identifier.
    pub fn get_query_id(&self) -> (query_id: u32)
        ensures
            query_id == self@.query_id,
    {
        self.query_id
    }

    /// The number of features the document carries.
    pub fn num_features(&self) -> (n: usize)
        ensures
            n == self@.features.len(),
    {
        self.features.len()
    }

    /// The value of the feature at `index`, or `IndexError` when the document
    /// has no such feature.
    pub fn get_feature(&self, index: usize) -> (value: Result<i64, LtrError>)
        ensures
            index < self@.features.len() ==> value.is_ok() && value.unwrap()
                == self@.features[index as int],
            index >= self@.features.len() ==> value == Err::<i64, LtrError>(LtrError::IndexError),
    {
        if index < self.features.len() {
            Ok(self.features[index])
        } else {
            Err(LtrError::IndexError)
        }
    }

    /// The description, if the document has one.
    pub fn get_description(&self) -> (description: Option<&String>)
        ensures
            match description {
                Some(s) => self@.description == Some(s@),
                None => self@.description.is_none(),
            },
    {
        self.description.as_ref()
    }
}

} // verus!
