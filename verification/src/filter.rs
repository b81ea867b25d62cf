//! The filter of a file query.

use crate::models::CameraFile;
use crate::text::{has_tag, occurs, quoted};
use vstd::prelude::*;
use vstd::string::StringSliceAdditionalSpecFns;
use vstd::utf8::encode_utf8;

verus! {

/// Which files a query asks for. A part that is `None` or empty excludes
/// nothing.
#[derive(Debug)]
pub struct CameraFileQueryFilter {
    /// Only files that start after this time.
    pub start: Option<i64>,
    /// Only files that start before this time.
    pub end: Option<i64>,
    /// Only files of these cameras.
    pub camera_ids: Vec<i64>,
    /// Only files of these kinds.
    pub kinds: Vec<String>,
    /// Only files with at least one of these event tags.
    pub events: Vec<String>,
}

impl CameraFileQueryFilter {
    /// Whether the filter admits files of camera `id`.
    pub open spec fn wants_camera(&self, id: i64) -> bool {
        self.camera_ids@.len() == 0 || exists|i: int|
            0 <= i < self.camera_ids@.len() && self.camera_ids@[i] == id
    }

    /// Whether the filter admits files of this kind.
    pub open spec fn wants_kind(&self, kind: Seq<char>) -> bool {
        self.kinds@.len() == 0 || exists|i: int|
            0 <= i < self.kinds@.len() && (#[trigger] self.kinds@[i])@ == kind
    }

    /// Whether the filter admits files with these serialized event tags: one
    /// of the filter's tags stands in them between double quotes.
    pub open spec fn wants_events(&self, events: Seq<char>) -> bool {
        self.events@.len() == 0 || exists|i: int|
            0 <= i < self.events@.len() && occurs(
                encode_utf8(events),
                quoted(encode_utf8((#[trigger] self.events@[i])@)),
            )
    }

    /// Whether the filter admits the file.
    pub open spec fn matches(&self, f: CameraFile) -> bool {
        &&& self.start matches Some(t) ==> f.start_time > t
        &&& self.end matches Some(t) ==> f.start_time < t
        &&& self.wants_camera(f.camera_id)
        &&& self.wants_kind(f.kind@)
        &&& self.wants_events(f.events@)
    }

    /// The filter that admits every file.
    pub fn new() -> (r: Self)
        ensures
            r.start is None,
            r.end is None,
            r.camera_ids@.len() == 0,
            r.kinds@.len() == 0,
            r.events@.len() == 0,
            forall|f: CameraFile| r.matches(f),
    {
        CameraFileQueryFilter {
            start: None,
            end: None,
            camera_ids: Vec::new(),
            kinds: Vec::new(),
            events: Vec::new(),
        }
    }

    /// This filter, admitting only files that start after `start`.
    pub fn start(self, start: i64) -> (r: Self)
        ensures
            r == (CameraFileQueryFilter { start: Some(start), ..self }),
    {
        CameraFileQueryFilter { start: Some(start), ..self }
    }

    /// This filter, admitting only files that start before `end`.
    pub fn end(self, end: i64) -> (r: Self)
        ensures
            r == (CameraFileQueryFilter { end: Some(end), ..self }),
    {
        CameraFileQueryFilter { end: Some(end), ..self }
    }

    /// This filter, admitting only files of the cameras `camera_ids`, or of
    /// every camera if there are none.
    pub fn camera_ids(self, camera_ids: Vec<i64>) -> (r: Self)
        ensures
            r == (CameraFileQueryFilter { camera_ids, ..self }),
    {
        CameraFileQueryFilter { camera_ids, ..self }
    }

    /// This filter, admitting only files of the kinds `kinds`, or of every
    /// kind if there are none.
    pub fn kinds(self, kinds: Vec<String>) -> (r: Self)
        ensures
            r == (CameraFileQueryFilter { kinds, ..self }),
    {
        CameraFileQueryFilter { kinds, ..self }
    }

    /// This filter, admitting only files with one of the tags `events`, or
    /// with any tags if there are none.
    pub fn events(self, events: Vec<String>) -> (r: Self)
        ensures
            r == (CameraFileQueryFilter { events, ..self }),
    {
        CameraFileQueryFilter { events, ..self }
    }

    fn accepts_camera(&self, id: i64) -> (b: bool)
        ensures
            b == self.wants_camera(id),
    {
        if self.camera_ids.len() == 0 {
            return true;
        }
        let mut i: usize = 0;
        while i < self.camera_ids.len()
            invariant
                i <= self.camera_ids.len(),
                forall|j: int| 0 <= j < i ==> self.camera_ids@[j] != id,
            decreases self.camera_ids.len() - i,
        {
            if self.camera_ids[i] == id {
                return true;
            }
            i += 1;
        }
        false
    }

    fn accepts_kind(&self, kind: &String) -> (b: bool)
        ensures
            b == self.wants_kind(kind@),
    {
        if self.kinds.len() == 0 {
            return true;
        }
        let mut i: usize = 0;
        while i < self.kinds.len()
            invariant
                i <= self.kinds.len(),
                forall|j: int| 0 <= j < i ==> (#[trigger] self.kinds@[j])@ != kind@,
            decreases self.kinds.len() - i,
        {
            if self.kinds[i] == *kind {
                return true;
            }
            i += 1;
        }
        false
    }

    fn accepts_events(&self, events: &String) -> (b: bool)
        ensures
            b == self.wants_events(events@),
    {
        if self.events.len() == 0 {
            return true;
        }
        let hay = events.as_str().as_bytes();
        let mut i: usize = 0;
        while i < self.events.len()
            invariant
                i <= self.events.len(),
                hay@ == encode_utf8(events@),
                forall|j: int|
                    0 <= j < i ==> !occurs(
                        encode_utf8(events@),
                        quoted(encode_utf8((#[trigger] self.events@[j])@)),
                    ),
            decreases self.events.len() - i,
        {
            if has_tag(hay, self.events[i].as_str().as_bytes()) {
                return true;
            }
            i += 1;
        }
        false
    }

    /// Whether the filter admits the file.
    pub fn accepts(&self, f: &CameraFile) -> (b: bool)
        ensures
            b == self.matches(*f),
    {
        if let Some(t) = self.start {
            if f.start_time <= t {
                return false;
            }
        }
        if let Some(t) = self.end {
            if f.start_time >= t {
                return false;
            }
        }
        self.accepts_camera(f.camera_id) && self.accepts_kind(&f.kind) && self.accepts_events(
            &f.events,
        )
    }
}

} // verus!
