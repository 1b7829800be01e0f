//! Errors of a GraphQL response, and where in the response they belong.

use vstd::prelude::*;
use vstd::string::*;
use std::collections::HashMap;

use crate::ast::opt_text;

verus! {

/// One step of the path to the field that an error is about.
#[derive(Debug, PartialEq)]
pub enum GraphQLErrorPathSegment {
    String(String),
    Index(usize),
}

impl Clone for GraphQLErrorPathSegment {
    fn clone(&self) -> (copy: Self)
        ensures
            copy == *self,
    {
        match self {
            GraphQLErrorPathSegment::String(name) => GraphQLErrorPathSegment::String(name.clone()),
            GraphQLErrorPathSegment::Index(index) => GraphQLErrorPathSegment::Index(*index),
        }
    }
}

/// The path to the field that an error is about.
#[derive(Debug, PartialEq)]
pub struct GraphQLErrorPath {
    pub segments: Vec<GraphQLErrorPathSegment>,
}

impl View for GraphQLErrorPath {
    type V = Seq<GraphQLErrorPathSegment>;

    open spec fn view(&self) -> Seq<GraphQLErrorPathSegment> {
        self.segments@
    }
}

impl Clone for GraphQLErrorPath {
    fn clone(&self) -> (copy: Self)
        ensures
            copy@ == self@,
    {
        let segments = self.segments.clone();
        assert(segments@ =~= self.segments@);
        GraphQLErrorPath { segments }
    }
}

/// A place in the text of an operation.
#[derive(Debug, Clone, Copy, PartialEq, Eq, Structural)]
pub struct GraphQLErrorLocation {
    pub line: usize,
    pub column: usize,
}

/// What an error says beyond its message.
#[derive(Debug, PartialEq)]
pub struct GraphQLErrorExtensions {
    pub code: Option<String>,
    /// The subgraph that the error comes from.
    pub service_name: Option<String>,
    /// The path of the flattened fetch that met the error.
    pub affected_path: Option<String>,
}

/// The view of [`GraphQLErrorExtensions`].
pub struct ExtensionsView {
    pub code: Option<Seq<char>>,
    pub service_name: Option<Seq<char>>,
    pub affected_path: Option<Seq<char>>,
}

impl View for GraphQLErrorExtensions {
    type V = ExtensionsView;

    open spec fn view(&self) -> ExtensionsView {
        ExtensionsView {
            code: opt_text(self.code),
            service_name: opt_text(self.service_name),
            affected_path: opt_text(self.affected_path),
        }
    }
}

impl Default for GraphQLErrorExtensions {
    fn default() -> (extensions: Self)
        ensures
            extensions@ == (ExtensionsView { code: None, service_name: None, affected_path: None }),
    {
        GraphQLErrorExtensions { code: None, service_name: None, affected_path: None }
    }
}

impl Clone for GraphQLErrorExtensions {
    fn clone(&self) -> (copy: Self)
        ensures
            copy@ == self@,
    {
        GraphQLErrorExtensions {
            code: self.code.clone(),
            service_name: self.service_name.clone(),
            affected_path: self.affected_path.clone(),
        }
    }
}

/// An error in a GraphQL response.
#[derive(Debug, PartialEq)]
pub struct GraphQLError {
    pub message: String,
    pub locations: Option<Vec<GraphQLErrorLocation>>,
    pub path: Option<GraphQLErrorPath>,
    pub extensions: GraphQLErrorExtensions,
}

/// The view of a [`GraphQLError`].
pub struct ErrorView {
    pub message: Seq<char>,
    pub locations: Option<Seq<GraphQLErrorLocation>>,
    pub path: Option<Seq<GraphQLErrorPathSegment>>,
    pub extensions: ExtensionsView,
}

impl View for GraphQLError {
    type V = ErrorView;

    open spec fn view(&self) -> ErrorView {
        ErrorView {
            message: self.message@,
            locations: match self.locations {
                Some(locations) => Some(locations@),
                None => None,
            },
            path: match self.path {
                Some(path) => Some(path@),
                None => None,
            },
            extensions: self.extensions@,
        }
    }
}

impl Clone for GraphQLError {
    fn clone(&self) -> (copy: Self)
        ensures
            copy@ == self@,
    {
        let locations = match &self.locations {
            Some(locations) => {
                let copy = locations.clone();
                assert(copy@ =~= locations@);
                Some(copy)
            },
            None => None,
        };
        GraphQLError {
            message: self.message.clone(),
            locations,
            path: self.path.clone(),
            extensions: self.extensions.clone(),
        }
    }
}

/// The views of errors, in their order.
pub open spec fn errors_view(errors: Seq<GraphQLError>) -> Seq<ErrorView> {
    errors.map_values(|error: GraphQLError| error@)
}

/// For each entity of a fetch, by its index, the places of the response that it belongs to.
pub type EntityPaths = HashMap<usize, Vec<GraphQLErrorPath>>;

/// A place of the response.
pub type Place = Seq<GraphQLErrorPathSegment>;

/// The places that paths lead to.
pub open spec fn places(paths: Seq<GraphQLErrorPath>) -> Seq<Place> {
    paths.map_values(|path: GraphQLErrorPath| path@)
}

/// For each entity of a fetch, by its index, the places of the response that it belongs to.
pub open spec fn entity_places(paths: Map<usize, Vec<GraphQLErrorPath>>) -> Map<usize, Seq<Place>> {
    paths.map_values(|paths: Vec<GraphQLErrorPath>| places(paths@))
}

/// `text`, or `other` where there is none.
pub open spec fn text_or(text: Option<Seq<char>>, other: Option<Seq<char>>) -> Option<Seq<char>> {
    match text {
        Some(text) => Some(text),
        None => other,
    }
}

/// An error with the subgraph that it comes from and the path of the fetch that met it. What the
/// error says of these itself, stands.
pub open spec fn attributed(
    error: ErrorView,
    subgraph_name: Option<Seq<char>>,
    affected_path: Option<Seq<char>>,
) -> ErrorView {
    ErrorView {
        extensions: ExtensionsView {
            service_name: text_or(error.extensions.service_name, subgraph_name),
            affected_path: text_or(error.extensions.affected_path, affected_path),
            ..error.extensions
        },
        ..error
    }
}

/// The index of the entity that a path into the answer of an entity fetch leads through:
/// `_entities`, the index, then the fields of the entity.
pub open spec fn entity_index(path: Option<Seq<GraphQLErrorPathSegment>>) -> Option<usize> {
    match path {
        Some(segments) => if segments.len() >= 2 && segments[0] is String
            && segments[0]->String_0@ == "_entities"@ && segments[1] is Index {
            Some(segments[1]->Index_0)
        } else {
            None
        },
        None => None,
    }
}

/// An error of an entity at one place of the response that the entity belongs to.
pub open spec fn at_place(error: ErrorView, place: Place) -> ErrorView {
    ErrorView { path: Some(place + error.path->Some_0.skip(2)), ..error }
}

/// An error of an entity is reported once for each place that the entity belongs to; any other
/// error as it is.
pub open spec fn at_places(error: ErrorView, places: Map<usize, Seq<Place>>) -> Seq<ErrorView> {
    match entity_index(error.path) {
        Some(index) => if places.contains_key(index) {
            places[index].map_values(|place: Place| at_place(error, place))
        } else {
            seq![error]
        },
        None => seq![error],
    }
}

impl GraphQLError {
    /// Says which subgraph the error comes from and which fetch met it, where the error does not
    /// say so itself.
    pub fn attribute(
        self,
        subgraph_name: Option<String>,
        affected_path: Option<String>,
    ) -> (error: Self)
        ensures
            error@ == attributed(
                self@,
                opt_text(subgraph_name),
                opt_text(affected_path),
            ),
    {
        let extensions = GraphQLErrorExtensions {
            code: self.extensions.code,
            service_name: match self.extensions.service_name {
                Some(name) => Some(name),
                None => subgraph_name,
            },
            affected_path: match self.extensions.affected_path {
                Some(path) => Some(path),
                None => affected_path,
            },
        };
        GraphQLError {
            message: self.message,
            locations: self.locations,
            path: self.path,
            extensions,
        }
    }

    /// The index of the entity that the error is about, where it is about one.
    pub fn entity_index(&self) -> (index: Option<usize>)
        ensures
            index == entity_index(self@.path),
    {
        match &self.path {
            Some(path) => {
                if path.segments.len() < 2 {
                    return None;
                }
                match &path.segments[0] {
                    GraphQLErrorPathSegment::String(name) => {
                        if *name != String::from_str("_entities") {
                            return None;
                        }
                    },
                    GraphQLErrorPathSegment::Index(_) => {
                        return None;
                    },
                }
                match &path.segments[1] {
                    GraphQLErrorPathSegment::Index(index) => Some(*index),
                    GraphQLErrorPathSegment::String(_) => None,
                }
            },
            None => None,
        }
    }

    /// The errors to report for this one, see [`at_places`].
    pub fn normalize_entity_error(self, entity_paths: &EntityPaths) -> (errors: Vec<GraphQLError>)
        ensures
            errors_view(errors@) == at_places(self@, entity_places(entity_paths@)),
    {
        let mut errors: Vec<GraphQLError> = Vec::new();
        if let Some(index) = self.entity_index() {
            if let Some(paths) = entity_paths.get(&index) {
                let ghost places = places(paths@);
                for i in 0..paths.len()
                    invariant
                        entity_index(self@.path) is Some,
                        places == crate::errors::places(paths@),
                        errors@.len() == i,
                        forall|j: int| 0 <= j < i ==> errors@[j]@ == at_place(self@, places[j]),
                {
                    errors.push(self.at(&paths[i]));
                }
                assert(errors_view(errors@) =~= at_places(self@, entity_places(entity_paths@)));
                return errors;
            }
        }
        errors.push(self);
        assert(errors_view(errors@) =~= seq![self@]);
        errors
    }

    /// The error of an entity at one place of the response.
    fn at(&self, place: &GraphQLErrorPath) -> (error: Self)
        requires
            entity_index(self@.path) is Some,
        ensures
            error@ == at_place(self@, place@),
    {
        let mut error = self.clone();
        let mut segments = place.segments.clone();
        assert(segments@ =~= place@);
        if let Some(path) = &self.path {
            let mut i: usize = 2;
            while i < path.segments.len()
                invariant
                    2 <= i <= path@.len(),
                    segments@ == place@ + path@.subrange(2, i as int),
                decreases path@.len() - i,
            {
                segments.push(path.segments[i].clone());
                i += 1;
                assert(segments@ =~= place@ + path@.subrange(2, i as int));
            }
            assert(path@.subrange(2, i as int) =~= path@.skip(2));
        }
        error.path = Some(GraphQLErrorPath { segments });
        error
    }
}

} // verus!
