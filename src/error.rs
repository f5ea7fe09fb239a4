use vstd::prelude::*;
use vstd::string::*;

verus! {

/// Why a template could not be evaluated, or metrics could not be extracted.
#[derive(Debug, Clone, PartialEq, Eq)]
pub enum MetricError {
    /// A placeholder of the template has no value in the mapping.
    MissingPlaceholder(String),
    /// Placeholders of the template that name no column of the result.
    MissingKeyColumns(Vec<String>),
    /// Every column of the result is used in the metric name.
    NoValueColumns,
    /// A value column holds text that is not an integer: the column, then the text.
    NonNumericValue(String, String),
}

/// The mathematical value of a `MetricError`.
pub enum ErrorModel {
    MissingPlaceholder(Seq<char>),
    MissingKeyColumns(Seq<Seq<char>>),
    NoValueColumns,
    NonNumericValue(Seq<char>, Seq<char>),
}

/// The character sequences that a vector of strings holds.
pub open spec fn names(v: Seq<String>) -> Seq<Seq<char>> {
    v.map_values(|x: String| x@)
}

impl View for MetricError {
    type V = ErrorModel;

    open spec fn view(&self) -> ErrorModel {
        match self {
            MetricError::MissingPlaceholder(n) => ErrorModel::MissingPlaceholder(n@),
            MetricError::MissingKeyColumns(v) => ErrorModel::MissingKeyColumns(names(v@)),
            MetricError::NoValueColumns => ErrorModel::NoValueColumns,
            MetricError::NonNumericValue(c, t) => ErrorModel::NonNumericValue(c@, t@),
        }
    }
}

/// The names joined, with ", " between two of them.
pub open spec fn joined(v: Seq<Seq<char>>) -> Seq<char>
    decreases v.len(),
{
    if v.len() == 0 {
        Seq::empty()
    } else if v.len() == 1 {
        v[0]
    } else {
        joined(v.drop_last()) + ", "@ + v.last()
    }
}

/// The human-readable text of an error.
pub open spec fn message_of(e: ErrorModel) -> Seq<char> {
    match e {
        ErrorModel::MissingPlaceholder(n) => "Missing placeholder key: "@ + n,
        ErrorModel::MissingKeyColumns(v) => "Metric template uses missing columns: "@ + joined(v),
        ErrorModel::NoValueColumns => "No value column to produce metric"@,
        ErrorModel::NonNumericValue(c, t) => "Value column "@ + c + " contains a non-numeric value "@
            + t,
    }
}

impl MetricError {
    /// The human-readable text of the error.
    pub fn message(&self) -> (r: String)
        ensures
            r@ == message_of(self@),
    {
        match self {
            MetricError::MissingPlaceholder(n) => {
                let mut r = String::from_str("Missing placeholder key: ");
                r.append(n.as_str());
                r
            },
            MetricError::MissingKeyColumns(v) => {
                let mut r = String::from_str("Metric template uses missing columns: ");
                let ghost start = r@;
                let mut i: usize = 0;
                while i < v.len()
                    invariant
                        i <= v@.len(),
                        r@ == start + joined(names(v@).take(i as int)),
                    decreases v.len() - i,
                {
                    proof {
                        assert(names(v@).take(i + 1).drop_last() =~= names(v@).take(i as int));
                    }
                    if i > 0 {
                        r.append(", ");
                    }
                    r.append(v[i].as_str());
                    proof {
                        if i == 0 {
                            assert(names(v@).take(0) =~= Seq::<Seq<char>>::empty());
                        }
                    }
                    i = i + 1;
                }
                assert(names(v@).take(v@.len() as int) =~= names(v@));
                r
            },
            MetricError::NoValueColumns => String::from_str("No value column to produce metric"),
            MetricError::NonNumericValue(c, t) => {
                let mut r = String::from_str("Value column ");
                r.append(c.as_str());
                r.append(" contains a non-numeric value ");
                r.append(t.as_str());
                r
            },
        }
    }
}

} // verus!
