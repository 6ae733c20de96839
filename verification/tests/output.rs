use ccx::inp_basic::Deck;
use ccx::model::ModelSummary;
use ccx::output::{dat_report, frd_stub, job_file_name, sta_report, JobReport, JobStatus};

fn report(status: JobStatus, message: &str) -> JobReport {
    JobReport {
        job_name: "beam_static".to_string(),
        analysis_type: "LinearStatic".to_string(),
        num_nodes: 12,
        num_elements: 6,
        num_dofs: 36,
        num_equations: 36,
        status,
        message: message.to_string(),
    }
}

#[test]
fn writes_dat_sta_and_frd_bundle() {
    let r = report(JobStatus::Success, "Run completed");
    let dat = dat_report(&r);
    assert!(dat.contains("JOB: beam_static"));
    assert!(dat.contains("STATUS: SUCCESS"));
    assert_eq!(
        dat,
        "*CCX DAT REPORT\nJOB: beam_static\nANALYSIS: LinearStatic\nSTATUS: SUCCESS\nNODES: 12\nELEMENTS: 6\nDOFS: 36\nEQUATIONS: 36\nMESSAGE: Run completed\n"
    );
    assert_eq!(
        frd_stub(&r),
        "    1PSTEP      1PINC      1\n-1\n100Cbeam_static\n9999\n# STATUS=SUCCESS\n# ANALYSIS=LinearStatic\n# NODES=12 ELEMENTS=6\n"
    );
    assert_eq!(job_file_name("beam_static", "dat"), "beam_static.dat");
}

#[test]
fn writes_failed_status_in_sta() {
    let r = report(JobStatus::Failed, "Diverged");
    let content = sta_report(&r);
    assert!(content.contains(" 1 "));
    assert!(content.contains("Diverged"));
    assert_eq!(JobStatus::Failed.as_str(), "FAILED");
}

#[test]
fn report_from_summary_counts_three_dofs_per_node() {
    let deck = Deck::parse_str("*NODE\n1,0,0,0\n2,1,0,0\n*ELEMENT\n1,1,2\n").expect("parse");
    let summary = ModelSummary::from_deck(&deck);
    let r = JobReport::from_summary(
        "job".to_string(),
        "LinearStatic".to_string(),
        &summary,
        JobStatus::Success,
        "ok".to_string(),
    );
    assert_eq!(r.num_nodes, 2);
    assert_eq!(r.num_elements, 1);
    assert_eq!(r.num_dofs, 6);
    assert_eq!(r.num_equations, 6);
}
