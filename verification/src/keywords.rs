//! The ways in which candidate keywords can be ranked against a document.

use vstd::prelude::*;

verus! {

/// Scoring function variants for keyword ranking.
#[derive(Clone, Copy, Debug, PartialEq, Eq, Structural)]
pub enum KeywordScorerType {
    /// Cosine similarity ranker: the score is the dot product of the
    /// normalized vector representations of the document and of the keyword.
    CosineSimilarity,
    /// Maximal margin relevance ranker. The first keyword has the maximum
    /// cosine similarity with the document. Further keywords are chosen one
    /// by one by their similarity to the document, penalized by the maximum
    /// similarity to the keywords already chosen, adjusted by a diversity
    /// factor.
    MaximalMarginRelevance,
    /// Maximum sum ranker. Of the best candidates by cosine similarity, the
    /// combination of keywords with the maximum distance between its members
    /// is chosen.
    MaxSum,
}

} // verus!
