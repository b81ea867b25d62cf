//! Rows of the store and the values that its operations take and return.

use vstd::prelude::*;

verus! {

/// How the range of a scan was chosen.
#[derive(Clone, Copy, Debug, PartialEq, Eq, Structural)]
pub enum ScanKind {
    /// Everything from the epoch until the scan was requested.
    Full,
    /// From the camera's scan cursor until the scan was started.
    Cursor,
    /// A range given by the operator.
    Manual,
}

/// A requested scan that has not started. There is at most one per camera.
#[derive(Clone, Copy, Debug, PartialEq, Eq, Structural)]
pub struct ScanPending {
    pub camera_id: i64,
    pub kind: ScanKind,
    pub range_start: i64,
    pub range_end: i64,
}

/// A scan that is running. There is at most one per camera.
#[derive(Clone, Copy, Debug, PartialEq, Eq, Structural)]
pub struct ScanActive {
    pub camera_id: i64,
    pub kind: ScanKind,
    pub range_start: i64,
    pub range_end: i64,
    pub started_at: i64,
    /// Start of the oldest chunk scanned so far; `range_end` before the first.
    pub range_cursor: i64,
    pub percent: u8,
    pub upserted: u64,
    pub deleted: u64,
}

/// A finished scan, kept as history.
#[derive(Debug, PartialEq, Eq)]
pub struct ScanCompleted {
    pub id: i64,
    pub camera_id: i64,
    pub kind: ScanKind,
    pub range_start: i64,
    pub range_end: i64,
    pub started_at: i64,
    pub range_cursor: i64,
    pub upserted: u64,
    pub deleted: u64,
    pub percent: u8,
    /// Milliseconds from start to finish.
    pub duration: i64,
    pub success: bool,
    /// Empty on success.
    pub error: String,
    /// Whether the operator may ask for this scan to run again.
    pub can_retry: bool,
    /// Whether the operator has asked for it and it has not been picked up.
    pub retry_pending: bool,
}

impl Clone for ScanCompleted {
    fn clone(&self) -> (r: Self)
        ensures
            r == *self,
    {
        ScanCompleted {
            id: self.id,
            camera_id: self.camera_id,
            kind: self.kind,
            range_start: self.range_start,
            range_end: self.range_end,
            started_at: self.started_at,
            range_cursor: self.range_cursor,
            upserted: self.upserted,
            deleted: self.deleted,
            percent: self.percent,
            duration: self.duration,
            success: self.success,
            error: self.error.clone(),
            can_retry: self.can_retry,
            retry_pending: self.retry_pending,
        }
    }
}

/// What one pass over a chunk changed in the file index.
#[derive(Clone, Copy, Debug, PartialEq, Eq, Structural)]
pub struct CameraScanResult {
    pub upserted: u64,
    pub deleted: u64,
}

impl CameraScanResult {
    /// The sum of two counters, held at `u64::MAX` where it would pass it.
    pub open spec fn sum(a: u64, b: u64) -> u64 {
        if a + b > u64::MAX {
            u64::MAX
        } else {
            (a + b) as u64
        }
    }

    /// The totals of `self` and `other`, each counter by [`CameraScanResult::sum`].
    pub open spec fn plus(self, other: CameraScanResult) -> CameraScanResult {
        CameraScanResult {
            upserted: Self::sum(self.upserted, other.upserted),
            deleted: Self::sum(self.deleted, other.deleted),
        }
    }

    /// Adds the counters of `other` to this result.
    pub fn add_assign(&mut self, other: CameraScanResult)
        ensures
            *final(self) == old(self).plus(other),
    {
        self.upserted = self.upserted.saturating_add(other.upserted);
        self.deleted = self.deleted.saturating_add(other.deleted);
    }
}

impl Default for CameraScanResult {
    fn default() -> (r: Self)
        ensures
            r == (CameraScanResult { upserted: 0, deleted: 0 }),
    {
        CameraScanResult { upserted: 0, deleted: 0 }
    }
}

/// A camera as the operator sees it.
#[derive(Debug, PartialEq, Eq)]
pub struct Camera {
    pub id: i64,
    pub ip: String,
    pub username: String,
    pub refreshed_at: i64,
    pub created_at: i64,
}

/// A camera with the credentials that a connection to it needs.
#[derive(Debug, PartialEq, Eq)]
pub struct ICamera {
    pub id: i64,
    pub ip: String,
    pub username: String,
    pub password: String,
}

/// Hardware detail that a camera reports about itself.
#[derive(Debug, PartialEq, Eq)]
pub struct CameraDetail {
    pub sn: String,
    pub device_class: String,
    pub device_type: String,
    pub hardware_version: String,
    pub market_area: String,
    pub process_info: String,
    pub vendor: String,
}

impl CameraDetail {
    /// Whether every field is the empty string.
    pub open spec fn is_blank(&self) -> bool {
        &&& self.sn@.len() == 0
        &&& self.device_class@.len() == 0
        &&& self.device_type@.len() == 0
        &&& self.hardware_version@.len() == 0
        &&& self.market_area@.len() == 0
        &&& self.process_info@.len() == 0
        &&& self.vendor@.len() == 0
    }

    /// The detail of a camera that has not reported yet.
    pub fn blank() -> (r: Self)
        ensures
            r.is_blank(),
    {
        CameraDetail {
            sn: String::new(),
            device_class: String::new(),
            device_type: String::new(),
            hardware_version: String::new(),
            market_area: String::new(),
            process_info: String::new(),
            vendor: String::new(),
        }
    }
}

impl Clone for CameraDetail {
    fn clone(&self) -> (r: Self)
        ensures
            r == *self,
    {
        CameraDetail {
            sn: self.sn.clone(),
            device_class: self.device_class.clone(),
            device_type: self.device_type.clone(),
            hardware_version: self.hardware_version.clone(),
            market_area: self.market_area.clone(),
            process_info: self.process_info.clone(),
            vendor: self.vendor.clone(),
        }
    }
}

/// Software versions that a camera reports about itself.
#[derive(Debug, PartialEq, Eq)]
pub struct CameraSoftware {
    pub build: String,
    pub build_date: String,
    pub security_base_line_version: String,
    pub version: String,
    pub web_version: String,
}

impl CameraSoftware {
    /// Whether every field is the empty string.
    pub open spec fn is_blank(&self) -> bool {
        &&& self.build@.len() == 0
        &&& self.build_date@.len() == 0
        &&& self.security_base_line_version@.len() == 0
        &&& self.version@.len() == 0
        &&& self.web_version@.len() == 0
    }

    /// The software of a camera that has not reported yet.
    pub fn blank() -> (r: Self)
        ensures
            r.is_blank(),
    {
        CameraSoftware {
            build: String::new(),
            build_date: String::new(),
            security_base_line_version: String::new(),
            version: String::new(),
            web_version: String::new(),
        }
    }
}

impl Clone for CameraSoftware {
    fn clone(&self) -> (r: Self)
        ensures
            r == *self,
    {
        CameraSoftware {
            build: self.build.clone(),
            build_date: self.build_date.clone(),
            security_base_line_version: self.security_base_line_version.clone(),
            version: self.version.clone(),
            web_version: self.web_version.clone(),
        }
    }
}

/// A license installed on a camera.
#[derive(Debug, PartialEq, Eq)]
pub struct CameraLicense {
    pub abroad_info: String,
    pub all_type: bool,
    pub digit_channel: i64,
    pub effective_days: i64,
    pub effective_time: i64,
    pub license_id: i64,
    pub product_type: String,
    pub status: i64,
    pub username: String,
}

impl Clone for CameraLicense {
    fn clone(&self) -> (r: Self)
        ensures
            r == *self,
    {
        CameraLicense {
            abroad_info: self.abroad_info.clone(),
            all_type: self.all_type,
            digit_channel: self.digit_channel,
            effective_days: self.effective_days,
            effective_time: self.effective_time,
            license_id: self.license_id,
            product_type: self.product_type.clone(),
            status: self.status,
            username: self.username.clone(),
        }
    }
}

/// A camera as the store keeps it.
#[derive(Debug, PartialEq, Eq)]
pub struct CameraRecord {
    pub id: i64,
    pub ip: String,
    pub username: String,
    pub password: String,
    /// Everything before this time is known to be indexed. It never moves back.
    pub scan_cursor: i64,
    pub refreshed_at: i64,
    pub created_at: i64,
    pub detail: CameraDetail,
    pub software: CameraSoftware,
    pub licenses: Vec<CameraLicense>,
}

impl CameraRecord {
    /// The camera as the operator sees it.
    pub open spec fn camera(&self) -> Camera {
        Camera {
            id: self.id,
            ip: self.ip,
            username: self.username,
            refreshed_at: self.refreshed_at,
            created_at: self.created_at,
        }
    }

    /// The camera with its credentials.
    pub open spec fn icamera(&self) -> ICamera {
        ICamera { id: self.id, ip: self.ip, username: self.username, password: self.password }
    }

    /// Copies out the operator's view of the camera.
    pub fn to_camera(&self) -> (r: Camera)
        ensures
            r == self.camera(),
    {
        Camera {
            id: self.id,
            ip: self.ip.clone(),
            username: self.username.clone(),
            refreshed_at: self.refreshed_at,
            created_at: self.created_at,
        }
    }

    /// Copies out the camera with its credentials.
    pub fn to_icamera(&self) -> (r: ICamera)
        ensures
            r == self.icamera(),
    {
        ICamera {
            id: self.id,
            ip: self.ip.clone(),
            username: self.username.clone(),
            password: self.password.clone(),
        }
    }
}

/// A request to add a camera.
#[derive(Debug)]
pub struct CreateCameraRequest {
    pub ip: String,
    pub username: String,
    pub password: String,
}

/// A request to change a camera. A field that is `None` is left as it is.
#[derive(Debug)]
pub struct UpdateCameraRequest {
    pub id: i64,
    pub ip: Option<String>,
    pub username: Option<String>,
    pub password: Option<String>,
}

/// Everything the store knows about one camera.
#[derive(Debug, PartialEq, Eq)]
pub struct CameraShow {
    pub id: i64,
    pub ip: String,
    pub username: String,
    pub refreshed_at: i64,
    pub created_at: i64,
    pub detail: CameraDetail,
    pub software: CameraSoftware,
    pub licenses: Vec<CameraLicense>,
    pub file_total: u64,
}

/// A file recorded by a camera.
#[derive(Debug, PartialEq, Eq)]
pub struct CameraFile {
    pub camera_id: i64,
    pub file_path: String,
    pub kind: String,
    pub size: i64,
    pub start_time: i64,
    pub end_time: i64,
    /// The event tags of the file, serialized as text with each tag between
    /// double quotes.
    pub events: String,
}

impl Clone for CameraFile {
    fn clone(&self) -> (r: Self)
        ensures
            r == *self,
    {
        CameraFile {
            camera_id: self.camera_id,
            file_path: self.file_path.clone(),
            kind: self.kind.clone(),
            size: self.size,
            start_time: self.start_time,
            end_time: self.end_time,
            events: self.events.clone(),
        }
    }
}

impl CameraFile {
    /// Whether a file with key `(ta, ca)` comes before one with key
    /// `(tb, cb)` in the canonical order: later start time first, and among
    /// equal start times the higher camera id first.
    pub open spec fn key_before(ta: i64, ca: i64, tb: i64, cb: i64) -> bool {
        ta > tb || (ta == tb && ca > cb)
    }

    /// Whether `self` comes before `other` in the canonical order.
    pub open spec fn before(&self, other: &CameraFile) -> bool {
        Self::key_before(self.start_time, self.camera_id, other.start_time, other.camera_id)
    }

    /// Whether `files` is in canonical order with no key twice.
    pub open spec fn sorted(files: Seq<CameraFile>) -> bool {
        forall|i: int, j: int|
            #![trigger files[i], files[j]]
            0 <= i < j < files.len() ==> files[i].before(&files[j])
    }
}

} // verus!
