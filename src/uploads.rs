//! Where uploaded files go, and how each upload is reported.
use vstd::prelude::*;
use crate::path_guard::{is_normal_part, DrivePath, PathError};

verus! {

/// Where a file uploaded into `dir` under `file_name` is to be saved.
///
/// Files without a name, or with an empty one, are passed over (`None`). A
/// name that is not one plain component is refused, so that no upload lands
/// outside `dir`.
pub fn upload_destination(dir: &DrivePath, file_name: Option<&str>) -> (r: Option<
    Result<DrivePath, PathError>,
>)
    ensures
        r is None <==> (file_name is None || file_name->0@.len() == 0),
        r matches Some(Ok(p)) ==> is_normal_part(file_name->0@) && p@ == dir@.push(file_name->0@),
        r matches Some(Err(e)) ==> {
            &&& !is_normal_part(file_name->0@)
            &&& e matches PathError::InvalidName(t) && t@ == file_name->0@
        },
{
    match file_name {
        None => None,
        Some(name) => if name.unicode_len() == 0 {
            None
        } else {
            Some(dir.child(name))
        },
    }
}

/// How saving one uploaded file ended: `failure` holds the reason it failed.
#[derive(Debug)]
pub struct UploadOutcome {
    pub name: String,
    pub failure: Option<String>,
}

/// The line shown for one uploaded file.
#[derive(Debug)]
pub struct UploadReport {
    pub message: String,
    pub is_error: bool,
}

pub open spec fn saved_message(name: Seq<char>) -> Seq<char> {
    "File "@ + name + " saved"@
}

pub open spec fn failed_message(name: Seq<char>, reason: Seq<char>) -> Seq<char> {
    "File "@ + name + " failed to save: "@ + reason
}

/// The report due for an outcome.
pub open spec fn reports(o: UploadOutcome, rep: UploadReport) -> bool {
    match o.failure {
        None => rep.message@ == saved_message(o.name@) && !rep.is_error,
        Some(reason) => rep.message@ == failed_message(o.name@, reason@) && rep.is_error,
    }
}

/// Reports one uploaded file: saved, or failed with its reason.
pub fn report_upload(outcome: &UploadOutcome) -> (r: UploadReport)
    ensures
        reports(*outcome, r),
{
    let mut message = String::from_str("File ");
    message.append(outcome.name.as_str());
    match &outcome.failure {
        None => {
            message.append(" saved");
            UploadReport { message, is_error: false }
        },
        Some(reason) => {
            message.append(" failed to save: ");
            message.append(reason.as_str());
            UploadReport { message, is_error: true }
        },
    }
}

/// Reports every uploaded file, one line each and in order: one failure
/// never hides the others.
pub fn report_uploads(outcomes: &Vec<UploadOutcome>) -> (r: Vec<UploadReport>)
    ensures
        r@.len() == outcomes@.len(),
        forall|i: int| 0 <= i < r@.len() ==> reports(#[trigger] outcomes@[i], r@[i]),
{
    let mut r: Vec<UploadReport> = Vec::new();
    let mut i: usize = 0;
    while i < outcomes.len()
        invariant
            i <= outcomes@.len(),
            r@.len() == i,
            forall|k: int| 0 <= k < i ==> reports(#[trigger] outcomes@[k], r@[k]),
        decreases outcomes@.len() - i,
    {
        r.push(report_upload(&outcomes[i]));
        i = i + 1;
    }
    r
}

} // verus!
