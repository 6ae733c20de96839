//! Job reports and the text of the `.dat`, `.sta` and `.frd` files written
//! for a run.
use vstd::prelude::*;
use crate::model::ModelSummary;
use crate::text::{owned, push_str, push_decimal, decimal};

verus! {

broadcast use vstd::string::group_string_axioms;

/// Outcome of a job.
#[derive(Debug, Clone, Copy, PartialEq, Eq)]
pub enum JobStatus {
    Success,
    Failed,
}

/// The status word written to the report files.
pub open spec fn status_word(s: JobStatus) -> Seq<char> {
    match s {
        JobStatus::Success => "SUCCESS"@,
        JobStatus::Failed => "FAILED"@,
    }
}

impl JobStatus {
    /// The status word written to the report files.
    pub fn as_str(self) -> (r: &'static str)
        ensures
            r@ == status_word(self),
    {
        match self {
            JobStatus::Success => "SUCCESS",
            JobStatus::Failed => "FAILED",
        }
    }
}

/// What a run reports.
#[derive(Debug, Clone, PartialEq, Eq)]
pub struct JobReport {
    pub job_name: String,
    pub analysis_type: String,
    pub num_nodes: usize,
    pub num_elements: usize,
    pub num_dofs: usize,
    pub num_equations: usize,
    pub status: JobStatus,
    pub message: String,
}

impl JobReport {
    /// A report for a model summary: the summary's node and element rows,
    /// three degrees of freedom (and equations) per node.
    pub fn from_summary(
        job_name: String,
        analysis_type: String,
        summary: &ModelSummary,
        status: JobStatus,
        message: String,
    ) -> (r: JobReport)
        requires
            summary.node_rows * 3 <= usize::MAX,
        ensures
            r.job_name@ == job_name@,
            r.analysis_type@ == analysis_type@,
            r.num_nodes == summary.node_rows,
            r.num_elements == summary.element_rows,
            r.num_dofs == summary.node_rows * 3,
            r.num_equations == r.num_dofs,
            r.status == status,
            r.message@ == message@,
    {
        let num_nodes = summary.node_rows;
        let num_elements = summary.element_rows;
        let num_dofs = num_nodes * 3;
        JobReport {
            job_name,
            analysis_type,
            num_nodes,
            num_elements,
            num_dofs,
            num_equations: num_dofs,
            status,
            message,
        }
    }
}

/// Paths of the three files of a run.
#[derive(Debug, Clone, PartialEq, Eq)]
pub struct OutputBundle {
    pub dat_path: String,
    pub sta_path: String,
    pub frd_path: String,
}

/// The `.dat` report text.
pub open spec fn dat_text(r: JobReport) -> Seq<char> {
    "*CCX DAT REPORT\nJOB: "@ + r.job_name@ + "\nANALYSIS: "@ + r.analysis_type@ + "\nSTATUS: "@ + status_word(
        r.status,
    ) + "\nNODES: "@ + decimal(r.num_nodes as nat) + "\nELEMENTS: "@ + decimal(r.num_elements as nat)
        + "\nDOFS: "@ + decimal(r.num_dofs as nat) + "\nEQUATIONS: "@ + decimal(r.num_equations as nat)
        + "\nMESSAGE: "@ + r.message@ + "\n"@
}

/// The status code of the `.sta` file: 0 for success, 1 for failure.
pub open spec fn status_code(s: JobStatus) -> nat {
    match s {
        JobStatus::Success => 0,
        JobStatus::Failed => 1,
    }
}

/// The `.sta` status text.
pub open spec fn sta_text(r: JobReport) -> Seq<char> {
    "*CCX STA REPORT\nSTEP  INC   STATUS  DOFS  EQS\n1     1     "@ + decimal(status_code(r.status)) + "      "@
        + decimal(r.num_dofs as nat) + "    "@ + decimal(r.num_equations as nat) + "\n# "@ + r.message@ + "\n"@
}

/// The `.frd` stub text.
pub open spec fn frd_stub_text(r: JobReport) -> Seq<char> {
    "    1PSTEP      1PINC      1\n-1\n100C"@ + r.job_name@ + "\n9999\n# STATUS="@ + status_word(r.status)
        + "\n# ANALYSIS="@ + r.analysis_type@ + "\n# NODES="@ + decimal(r.num_nodes as nat) + " ELEMENTS="@
        + decimal(r.num_elements as nat) + "\n"@
}

/// The text of the `.dat` report of `report`.
pub fn dat_report(report: &JobReport) -> (r: String)
    ensures
        r@ == dat_text(*report),
{
    let mut s = owned("*CCX DAT REPORT\nJOB: ");
    push_str(&mut s, report.job_name.as_str());
    push_str(&mut s, "\nANALYSIS: ");
    push_str(&mut s, report.analysis_type.as_str());
    push_str(&mut s, "\nSTATUS: ");
    push_str(&mut s, report.status.as_str());
    push_str(&mut s, "\nNODES: ");
    push_decimal(&mut s, report.num_nodes);
    push_str(&mut s, "\nELEMENTS: ");
    push_decimal(&mut s, report.num_elements);
    push_str(&mut s, "\nDOFS: ");
    push_decimal(&mut s, report.num_dofs);
    push_str(&mut s, "\nEQUATIONS: ");
    push_decimal(&mut s, report.num_equations);
    push_str(&mut s, "\nMESSAGE: ");
    push_str(&mut s, report.message.as_str());
    push_str(&mut s, "\n");
    s
}

/// The text of the `.sta` file of `report`.
pub fn sta_report(report: &JobReport) -> (r: String)
    ensures
        r@ == sta_text(*report),
{
    let code: usize = match report.status {
        JobStatus::Success => 0,
        JobStatus::Failed => 1,
    };
    let mut s = owned("*CCX STA REPORT\nSTEP  INC   STATUS  DOFS  EQS\n1     1     ");
    push_decimal(&mut s, code);
    push_str(&mut s, "      ");
    push_decimal(&mut s, report.num_dofs);
    push_str(&mut s, "    ");
    push_decimal(&mut s, report.num_equations);
    push_str(&mut s, "\n# ");
    push_str(&mut s, report.message.as_str());
    push_str(&mut s, "\n");
    s
}

/// The text of the `.frd` stub of `report`.
pub fn frd_stub(report: &JobReport) -> (r: String)
    ensures
        r@ == frd_stub_text(*report),
{
    let mut s = owned("    1PSTEP      1PINC      1\n-1\n100C");
    push_str(&mut s, report.job_name.as_str());
    push_str(&mut s, "\n9999\n# STATUS=");
    push_str(&mut s, report.status.as_str());
    push_str(&mut s, "\n# ANALYSIS=");
    push_str(&mut s, report.analysis_type.as_str());
    push_str(&mut s, "\n# NODES=");
    push_decimal(&mut s, report.num_nodes);
    push_str(&mut s, " ELEMENTS=");
    push_decimal(&mut s, report.num_elements);
    push_str(&mut s, "\n");
    s
}

/// The file name `<job_name>.<extension>`.
pub fn job_file_name(job_name: &str, extension: &str) -> (r: String)
    ensures
        r@ == job_name@ + "."@ + extension@,
{
    let mut s = owned(job_name);
    push_str(&mut s, ".");
    push_str(&mut s, extension);
    s
}

} // verus!
