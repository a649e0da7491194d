//! Grapheme clusters: what a reader takes for one character, and what one
//! cell of the grid shows.

use vstd::prelude::*;
use unicode_segmentation::UnicodeSegmentation;
use unicode_width::UnicodeWidthStr;

verus! {

/// The extended grapheme clusters of a text, in order, as the Unicode
/// segmentation rules part it.
pub uninterp spec fn grapheme_clusters(text: Seq<char>) -> Seq<Seq<char>>;

/// The number of columns that a text takes on a terminal, as the rules of the
/// Unicode standard give it.
pub uninterp spec fn display_width(text: Seq<char>) -> nat;

/// The texts of a sequence of strings.
pub open spec fn texts(strings: Seq<String>) -> Seq<Seq<char>> {
    Seq::new(strings.len(), |i: int| strings[i]@)
}

/// The texts of `parts`, one after another.
pub open spec fn joined(parts: Seq<Seq<char>>) -> Seq<char>
    decreases parts.len(),
{
    if parts.len() == 0 {
        Seq::empty()
    } else {
        joined(parts.drop_last()) + parts.last()
    }
}

/// Parts a text into its extended grapheme clusters.
///
/// Calls `UnicodeSegmentation::graphemes` with `is_extended` set. The clusters
/// it yields are consecutive slices of the text that start at its beginning
/// and end at its end, so that one after another they are the text; which
/// slices they are is left to `grapheme_clusters`.
#[verifier::external_body]
pub(crate) fn graphemes(text: &str) -> (clusters: Vec<String>)
    ensures
        texts(clusters@) == grapheme_clusters(text@),
        joined(texts(clusters@)) == text@,
{
    UnicodeSegmentation::graphemes(text, true).map(|cluster| cluster.to_string()).collect()
}

/// The number of columns that a text takes on a terminal.
///
/// Calls `UnicodeWidthStr::width`, which finds the displayed width of a text
/// by the rules of the Unicode standard, with characters of ambiguous width
/// taken as one column wide. It depends on the text alone; which number it
/// is, is left to `display_width`.
#[verifier::external_body]
pub(crate) fn columns_of(text: &str) -> (width: usize)
    ensures
        width == display_width(text@),
{
    UnicodeWidthStr::width(text)
}

/// The string that holds one character.
///
/// Calls `String::from` on a `char`, which yields the string made of that
/// character alone.
#[verifier::external_body]
pub(crate) fn string_of_char(symbol: char) -> (text: String)
    ensures
        text@ == seq![symbol],
{
    String::from(symbol)
}

/// A text that is a single part is that part.
pub proof fn lemma_joined_single(parts: Seq<Seq<char>>)
    requires
        parts.len() == 1,
    ensures
        joined(parts) == parts[0],
{
    assert(parts.drop_last() =~= Seq::<Seq<char>>::empty());
    assert(joined(parts.drop_last()) =~= Seq::<char>::empty());
    assert(joined(parts) =~= parts[0]);
}

/// Why a text is not a grapheme cluster.
#[derive(Clone, Copy, PartialEq, Eq, Debug)]
pub enum GraphemeClusterError {
    /// The text holds more than one grapheme cluster.
    MultipleGraphemeClusters,
    /// The text is empty.
    NoGraphemeCluster,
}

/// One grapheme cluster: what a single cell of the grid shows.
#[derive(PartialEq, Eq, Debug)]
pub struct GraphemeCluster {
    pub text: String,
}

impl View for GraphemeCluster {
    type V = Seq<char>;

    open spec fn view(&self) -> Seq<char> {
        self.text@
    }
}

impl Clone for GraphemeCluster {
    fn clone(&self) -> (copy: GraphemeCluster)
        ensures
            copy@ == self@,
    {
        GraphemeCluster { text: self.text.clone() }
    }
}

impl GraphemeCluster {
    /// What `try_from_str` makes of a text: the text itself if it is one
    /// grapheme cluster.
    pub open spec fn parsed(text: Seq<char>) -> Result<Seq<char>, GraphemeClusterError> {
        let count = grapheme_clusters(text).len();
        if count == 0 {
            Err(GraphemeClusterError::NoGraphemeCluster)
        } else if count == 1 {
            Ok(text)
        } else {
            Err(GraphemeClusterError::MultipleGraphemeClusters)
        }
    }

    /// Decides from the clusters of a text whether the text is one cluster,
    /// and wraps it if so.
    pub fn from_clusters(clusters: Vec<String>) -> (result: Result<
        GraphemeCluster,
        GraphemeClusterError,
    >)
        ensures
            clusters@.len() == 0 ==> result == Err::<GraphemeCluster, GraphemeClusterError>(
                GraphemeClusterError::NoGraphemeCluster,
            ),
            clusters@.len() == 1 ==> result is Ok && result->Ok_0@ == clusters@[0]@,
            clusters@.len() > 1 ==> result == Err::<GraphemeCluster, GraphemeClusterError>(
                GraphemeClusterError::MultipleGraphemeClusters,
            ),
    {
        let mut clusters = clusters;
        if clusters.len() == 0 {
            Err(GraphemeClusterError::NoGraphemeCluster)
        } else if clusters.len() == 1 {
            match clusters.pop() {
                Some(text) => Ok(GraphemeCluster { text: text }),
                None => Err(GraphemeClusterError::NoGraphemeCluster),
            }
        } else {
            Err(GraphemeClusterError::MultipleGraphemeClusters)
        }
    }

    /// The grapheme cluster that a text is, if it is exactly one.
    pub fn try_from_str(text: &str) -> (result: Result<GraphemeCluster, GraphemeClusterError>)
        ensures
            match (result, GraphemeCluster::parsed(text@)) {
                (Ok(cluster), Ok(symbol)) => cluster@ == symbol,
                (Err(e), Err(expected)) => e == expected,
                _ => false,
            },
    {
        let clusters = graphemes(text);
        proof {
            assert(texts(clusters@).len() == clusters@.len());
            if clusters@.len() == 1 {
                lemma_joined_single(texts(clusters@));
            }
        }
        GraphemeCluster::from_clusters(clusters)
    }

    /// The grapheme cluster that a character is, if it is one by itself.
    pub fn try_from(symbol: char) -> (result: Result<GraphemeCluster, GraphemeClusterError>)
        ensures
            match (result, GraphemeCluster::parsed(seq![symbol])) {
                (Ok(cluster), Ok(text)) => cluster@ == text,
                (Err(e), Err(expected)) => e == expected,
                _ => false,
            },
    {
        let text = string_of_char(symbol);
        GraphemeCluster::try_from_str(text.as_str())
    }

    /// The blank that an empty cell shows.
    pub fn space() -> (cluster: GraphemeCluster)
        ensures
            cluster@ == seq![' '],
    {
        GraphemeCluster { text: string_of_char(' ') }
    }

    /// The text of the cluster.
    pub fn as_str(&self) -> (text: &str)
        ensures
            text@ == self@,
    {
        self.text.as_str()
    }

    /// The number of columns that the cluster takes on a terminal.
    pub fn width(&self) -> (width: usize)
        ensures
            width == display_width(self@),
    {
        columns_of(self.text.as_str())
    }
}

/// The number of grapheme clusters of a text.
pub fn count_grapheme_clusters(text: &str) -> (count: usize)
    ensures
        count == grapheme_clusters(text@).len(),
{
    let clusters = graphemes(text);
    proof {
        assert(texts(clusters@).len() == clusters@.len());
    }
    clusters.len()
}

/// The number of columns that a text takes on a terminal.
pub fn text_width(text: &str) -> (width: usize)
    ensures
        width == display_width(text@),
{
    columns_of(text)
}

} // verus!
