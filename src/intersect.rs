//! Where the source asks the upstream node to start: the stored cursor
//! when there is one, else the configured intersection.
use vstd::prelude::*;

use crate::model::{Point, PointModel};
use crate::text::{hex_decode, hex_decoded, is_hex_text};

verus! {

/// A point as configured: a slot and its block hash in hex.
#[derive(Debug, Clone)]
pub struct PointArg {
    pub slot: u64,
    pub hash_hex: String,
}

/// The configured intersection.
#[derive(Debug, Clone)]
pub enum IntersectConfig {
    Origin,
    Tip,
    Point(PointArg),
    Fallbacks(Vec<PointArg>),
}

/// What to ask the upstream node.
#[derive(Debug, PartialEq, Eq)]
pub enum IntersectRequest {
    /// Intersect at the first of these points that the node knows.
    FindIntersect(Vec<Point>),
    /// Intersect at genesis.
    Origin,
    /// Intersect at the current tip.
    Tip,
}

/// A configured point whose hash is not hex.
#[derive(Debug, Clone, Copy, PartialEq, Eq)]
pub enum IntersectError {
    InvalidPointHash,
}

pub enum RequestModel {
    FindIntersect(Seq<PointModel>),
    Origin,
    Tip,
}

impl View for IntersectRequest {
    type V = RequestModel;

    open spec fn view(&self) -> RequestModel {
        match self {
            IntersectRequest::FindIntersect(ps) => RequestModel::FindIntersect(
                ps@.map_values(|p: Point| p@),
            ),
            IntersectRequest::Origin => RequestModel::Origin,
            IntersectRequest::Tip => RequestModel::Tip,
        }
    }
}

pub open spec fn arg_valid(a: PointArg) -> bool {
    a.hash_hex@.len() % 2 == 0 && is_hex_text(a.hash_hex@)
}

pub open spec fn arg_point(a: PointArg) -> PointModel {
    PointModel { slot: a.slot, hash: hex_decoded(a.hash_hex@) }
}

/// Whether every configured point is well formed.
pub open spec fn config_valid(c: &IntersectConfig) -> bool {
    match c {
        IntersectConfig::Point(a) => arg_valid(*a),
        IntersectConfig::Fallbacks(v) => forall|i: int| 0 <= i < v@.len() ==> arg_valid(#[trigger] v@[i]),
        _ => true,
    }
}

/// The request for a configuration and a stored cursor: the cursor wins.
pub open spec fn request_spec(c: &IntersectConfig, cursor: Option<PointModel>) -> RequestModel {
    match cursor {
        Some(p) => RequestModel::FindIntersect(seq![p]),
        None => match c {
            IntersectConfig::Origin => RequestModel::Origin,
            IntersectConfig::Tip => RequestModel::Tip,
            IntersectConfig::Point(a) => RequestModel::FindIntersect(seq![arg_point(*a)]),
            IntersectConfig::Fallbacks(v) => RequestModel::FindIntersect(
                v@.map_values(|a: PointArg| arg_point(a)),
            ),
        },
    }
}

fn arg_to_point(a: &PointArg) -> (r: Option<Point>)
    ensures
        r is Some <==> arg_valid(*a),
        r matches Some(p) ==> p@ == arg_point(*a),
{
    match hex_decode(a.hash_hex.as_str()) {
        Some(hash) => Some(Point { slot: a.slot, hash }),
        None => None,
    }
}

/// Decides the intersection request; a stored cursor overrides the
/// configuration, which then need not be well formed.
pub fn intersect_request(intersect: &IntersectConfig, cursor: Option<Point>) -> (r: Result<IntersectRequest, IntersectError>)
    ensures
        r is Err <==> (cursor is None && !config_valid(intersect)),
        r matches Ok(q) ==> q@ == request_spec(
            intersect,
            match cursor {
                Some(p) => Some(p@),
                None => None,
            },
        ),
{
    match cursor {
        Some(p) => {
            let ghost pm = p@;
            let v = vec![p];
            assert(v@.map_values(|p: Point| p@) =~= seq![pm]);
            return Ok(IntersectRequest::FindIntersect(v));
        },
        None => {},
    }
    match intersect {
        IntersectConfig::Origin => Ok(IntersectRequest::Origin),
        IntersectConfig::Tip => Ok(IntersectRequest::Tip),
        IntersectConfig::Point(a) => match arg_to_point(a) {
            Some(p) => {
                let ghost pm = p@;
                let v = vec![p];
                assert(v@.map_values(|p: Point| p@) =~= seq![pm]);
                Ok(IntersectRequest::FindIntersect(v))
            },
            None => Err(IntersectError::InvalidPointHash),
        },
        IntersectConfig::Fallbacks(args) => {
            let mut points: Vec<Point> = Vec::new();
            let mut i: usize = 0;
            while i < args.len()
                invariant
                    i <= args@.len(),
                    *intersect == IntersectConfig::Fallbacks(*args),
                    cursor is None,
                    points@.len() == i,
                    forall|j: int| 0 <= j < i ==> arg_valid(#[trigger] args@[j]),
                    forall|j: int| 0 <= j < i ==> (#[trigger] points@[j])@ == arg_point(args@[j]),
                decreases args@.len() - i,
            {
                match arg_to_point(&args[i]) {
                    Some(p) => points.push(p),
                    None => {
                        assert(!arg_valid(args@[i as int]));
                        return Err(IntersectError::InvalidPointHash);
                    },
                }
                i = i + 1;
            }
            assert(points@.map_values(|p: Point| p@) =~= args@.map_values(|a: PointArg| arg_point(a)));
            Ok(IntersectRequest::FindIntersect(points))
        },
    }
}

} // verus!
