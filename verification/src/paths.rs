//! Paths through a response: how they are made from merge paths, and how they are written.

use vstd::prelude::*;
use vstd::string::*;

use crate::ast::{MergePath, Segment};
use crate::plan_nodes::{FetchNodePathSegment, FlattenNodePath, FlattenNodePathSegment};

verus! {

impl FlattenNodePathSegment {
    /// The name of the field, where the segment is one.
    pub fn to_field(&self) -> (field: Option<&String>)
        ensures
            field == (match *self {
                FlattenNodePathSegment::Field(field_name) => Some(&field_name),
                _ => None,
            }),
    {
        match self {
            FlattenNodePathSegment::Field(field_name) => Some(field_name),
            _ => None,
        }
    }

    /// The segment as it is written.
    pub fn text(&self) -> (text: String)
        ensures
            text@ == segment_text(*self),
    {
        match self {
            FlattenNodePathSegment::Field(field_name) => field_name.clone(),
            FlattenNodePathSegment::Cast(type_condition) => {
                let mut text = String::from_str("|[");
                text.append(type_condition.as_str());
                text.append("]");
                text
            },
            FlattenNodePathSegment::List => String::from_str("@"),
        }
    }
}

/// How a segment is written: a field by its name, a cast as `|[Type]`, a list as `@`.
pub open spec fn segment_text(segment: FlattenNodePathSegment) -> Seq<char> {
    match segment {
        FlattenNodePathSegment::Field(field_name) => field_name@,
        FlattenNodePathSegment::Cast(type_condition) => "|["@ + type_condition@ + "]"@,
        FlattenNodePathSegment::List => "@"@,
    }
}

/// How the first `n` segments of a path are written: with a dot before each segment but the first
/// one and casts.
pub open spec fn path_text(segments: Seq<FlattenNodePathSegment>, n: int) -> Seq<char>
    decreases n,
{
    if n <= 0 || n > segments.len() {
        Seq::empty()
    } else {
        let before = path_text(segments, n - 1);
        let here = segment_text(segments[n - 1]);
        if n == 1 || segments[n - 1] is Cast {
            before + here
        } else {
            before + "."@ + here
        }
    }
}

/// The segment of a flatten path for a segment of a merge path.
pub open spec fn flatten_segment(segment: Segment) -> FlattenNodePathSegment {
    match segment {
        Segment::Cast(type_condition, _) => FlattenNodePathSegment::Cast(type_condition),
        Segment::Field(field_name, _, _) => FlattenNodePathSegment::Field(field_name),
        Segment::List => FlattenNodePathSegment::List,
    }
}

/// The path of a rewrite for the first `n` segments of a merge path. Lists are left out.
pub open spec fn rewrite_path(segments: Seq<Segment>, n: int) -> Seq<FetchNodePathSegment>
    decreases n,
{
    if n <= 0 || n > segments.len() {
        Seq::empty()
    } else {
        let before = rewrite_path(segments, n - 1);
        match segments[n - 1] {
            Segment::Cast(type_condition, _) => before.push(
                FetchNodePathSegment::TypenameEquals(type_condition),
            ),
            Segment::Field(field_name, _, _) => before.push(FetchNodePathSegment::Key(field_name)),
            Segment::List => before,
        }
    }
}

impl FlattenNodePath {
    /// The path as it is written.
    pub fn text(&self) -> (text: String)
        ensures
            text@ == path_text(self@, self@.len() as int),
    {
        let segments = self.as_slice();
        let mut text = String::new();
        for i in 0..segments.len()
            invariant
                segments@ == self@,
                text@ == path_text(self@, i as int),
        {
            let cast = match &segments[i] {
                FlattenNodePathSegment::Cast(_) => true,
                _ => false,
            };
            // Don't add a dot before Cast
            if i > 0 && !cast {
                text.append(".");
            }
            text.append(segments[i].text().as_str());
        }
        text
    }
}

impl From<&MergePath> for Vec<FetchNodePathSegment> {
    fn from(value: &MergePath) -> (path: Self)
        ensures
            path@ == rewrite_path(value.inner@, value.inner@.len() as int),
    {
        let mut path: Vec<FetchNodePathSegment> = Vec::new();
        for i in 0..value.inner.len()
            invariant
                path@ == rewrite_path(value.inner@, i as int),
        {
            match &value.inner[i] {
                Segment::Cast(type_condition, _) => {
                    path.push(FetchNodePathSegment::TypenameEquals(type_condition.clone()));
                },
                Segment::Field(field_name, _args_hash, _) => {
                    path.push(FetchNodePathSegment::Key(field_name.clone()));
                },
                Segment::List => {},
            }
        }
        path
    }
}

impl vstd::std_specs::convert::FromSpecImpl<&MergePath> for Vec<FetchNodePathSegment> {
    open spec fn obeys_from_spec() -> bool {
        false
    }

    open spec fn from_spec(value: &MergePath) -> Self {
        arbitrary()
    }
}

impl From<&MergePath> for FlattenNodePath {
    fn from(path: &MergePath) -> (flat: Self)
        ensures
            flat@ == path.inner@.map_values(|segment: Segment| flatten_segment(segment)),
    {
        let mut segments: Vec<FlattenNodePathSegment> = Vec::new();
        for i in 0..path.inner.len()
            invariant
                segments@.len() == i,
                forall|j: int| 0 <= j < i ==> segments@[j] == flatten_segment(path.inner@[j]),
        {
            let segment = match &path.inner[i] {
                Segment::Cast(type_condition, _) => FlattenNodePathSegment::Cast(
                    type_condition.clone(),
                ),
                Segment::Field(field_name, _args_hash, _) => FlattenNodePathSegment::Field(
                    field_name.clone(),
                ),
                Segment::List => FlattenNodePathSegment::List,
            };
            segments.push(segment);
        }
        assert(segments@ =~= path.inner@.map_values(|segment: Segment| flatten_segment(segment)));
        FlattenNodePath::new(segments)
    }
}

impl vstd::std_specs::convert::FromSpecImpl<&MergePath> for FlattenNodePath {
    open spec fn obeys_from_spec() -> bool {
        false
    }

    open spec fn from_spec(path: &MergePath) -> Self {
        arbitrary()
    }
}

impl From<MergePath> for FlattenNodePath {
    fn from(path: MergePath) -> (flat: Self)
        ensures
            flat@ == path.inner@.map_values(|segment: Segment| flatten_segment(segment)),
    {
        FlattenNodePath::from(&path)
    }
}

impl vstd::std_specs::convert::FromSpecImpl<MergePath> for FlattenNodePath {
    open spec fn obeys_from_spec() -> bool {
        false
    }

    open spec fn from_spec(path: MergePath) -> Self {
        arbitrary()
    }
}

} // verus!
