use ccx::catalog::{line_count, lower_extension, to_rust_ident};
use ccx::gui_catalog::{
    detect_gui_language, gui_migration_report, gui_unit_from_file, is_ported_gui_unit,
    legacy_gui_units, ported_gui_units, LegacyGuiLanguage,
};
use ccx::migration::{
    is_ported, is_superseded_fortran, language_label, legacy_units, migration_report, ported_units,
    superseded_fortran_paths, unit_from_file, LegacyLanguage, LegacySourceUnit,
};

fn sample_files() -> Vec<(String, Vec<u8>)> {
    vec![
        ("strfind.c".to_string(), b"int x;\n".to_vec()),
        ("cgx.c".to_string(), b"int main() {\n  return 0;\n}\n".to_vec()),
        ("lib/glut.h".to_string(), Vec::new()),
        ("compare.c".to_string(), b"a\nb".to_vec()),
        ("viewer.cpp".to_string(), b"x".to_vec()),
        ("README".to_string(), b"text\n".to_vec()),
    ]
}

#[test]
fn legacy_catalog_contains_cgx_entrypoint() {
    let units = legacy_gui_units(&sample_files());
    assert!(units.iter().any(|unit| unit.legacy_rel_path == "cgx.c"));
}

#[test]
fn lib_report_counts_are_consistent() {
    let units = legacy_gui_units(&sample_files());
    let report = gui_migration_report(&units);
    assert!(report.total_units > 0);
    assert_eq!(report.total_units, report.ported_units + report.pending_units);

    let solver_units = vec![
        unit_from_file("ccx_2.23.c", b"int main() {}\n"),
        unit_from_file("superseded/cident.f", b"      end\n"),
        unit_from_file("superseded/nident.f", b"      end\n"),
        unit_from_file("results.f", b"      end\n"),
    ];
    let superseded = vec![
        "superseded/cident.f".to_string(),
        "superseded/nident.f".to_string(),
    ];
    let solver = migration_report(&solver_units, &superseded);
    assert!(solver.total_units > 0);
    assert!(solver.ported_units <= solver.superseded_fortran_units);
    assert_eq!(solver.total_units, solver.pending_units + solver.superseded_fortran_units);
}

#[test]
fn ported_gui_lookup_matches_known_entries() {
    assert!(is_ported_gui_unit("compare.c"));
    assert!(!is_ported_gui_unit("cgx.c"));
}

#[test]
fn catalog_is_sorted_by_path() {
    let units = legacy_gui_units(&sample_files());
    let paths: Vec<&str> = units.iter().map(|u| u.legacy_rel_path.as_str()).collect();
    assert_eq!(
        paths,
        vec!["README", "cgx.c", "compare.c", "lib/glut.h", "strfind.c", "viewer.cpp"]
    );
}

#[test]
fn catalog_entries_record_language_lines_and_module() {
    let units = legacy_gui_units(&sample_files());
    let cgx = units.iter().find(|u| u.legacy_rel_path == "cgx.c").unwrap();
    assert_eq!(cgx.line_count, 4);
    assert_eq!(cgx.module_name, "cgx_c");
    assert_eq!(cgx.language, LegacyGuiLanguage::C);
    let header = units.iter().find(|u| u.legacy_rel_path == "lib/glut.h").unwrap();
    assert_eq!(header.line_count, 0);
    assert_eq!(header.language, LegacyGuiLanguage::Header);
    assert_eq!(header.module_name, "lib_glut_h");
}

#[test]
fn gui_report_counts_per_language() {
    let units = legacy_gui_units(&sample_files());
    let report = gui_migration_report(&units);
    assert_eq!(report.total_units, 6);
    assert_eq!(report.ported_units, 2);
    assert_eq!(report.pending_units, 4);
    let per_language: usize = report.by_language.iter().map(|(_, n)| *n).sum();
    assert_eq!(per_language, report.total_units);
    assert_eq!(
        report.by_language,
        vec![
            (LegacyGuiLanguage::C, 3),
            (LegacyGuiLanguage::Cpp, 1),
            (LegacyGuiLanguage::Header, 1),
            (LegacyGuiLanguage::Other, 1),
        ]
    );
}

#[test]
fn empty_catalog_report() {
    let report = gui_migration_report(&Vec::new());
    assert_eq!(report.total_units, 0);
    assert_eq!(report.pending_units, 0);
    assert!(report.by_language.is_empty());
}

#[test]
fn language_by_extension() {
    assert_eq!(detect_gui_language("src/a.C"), LegacyGuiLanguage::C);
    assert_eq!(detect_gui_language("a.cxx"), LegacyGuiLanguage::Cpp);
    assert_eq!(detect_gui_language("a.cc"), LegacyGuiLanguage::Cpp);
    assert_eq!(detect_gui_language("a.HPP"), LegacyGuiLanguage::Header);
    assert_eq!(detect_gui_language(".h"), LegacyGuiLanguage::Other);
    assert_eq!(detect_gui_language("dir.c/file"), LegacyGuiLanguage::Other);
    assert_eq!(detect_gui_language("archive.tar.c"), LegacyGuiLanguage::C);
    assert_eq!(lower_extension("x/Y.TXT"), vec!['t', 'x', 't']);
}

#[test]
fn identifiers_and_line_counts() {
    assert_eq!(to_rust_ident(""), "_");
    assert_eq!(to_rust_ident("3d.c"), "_3d_c");
    assert_eq!(to_rust_ident("Sub/File-1.C"), "sub_file_1_c");
    assert_eq!(line_count(b""), 0);
    assert_eq!(line_count(b"abc"), 1);
    assert_eq!(line_count(b"a\nb\n"), 3);
}

#[test]
fn unit_from_file_keeps_path() {
    let u = gui_unit_from_file("v_add.c", b"x\ny\n");
    assert_eq!(u.legacy_rel_path, "v_add.c");
    assert_eq!(u.module_name, "v_add_c");
    assert_eq!(u.line_count, 3);
    assert!(is_ported_gui_unit(&u.legacy_rel_path));
    assert_eq!(ported_gui_units().len(), 11);
}

#[test]
fn labels_match_expected_strings() {
    assert_eq!(language_label(LegacyLanguage::C), "C");
    assert_eq!(language_label(LegacyLanguage::Fortran), "Fortran");
}

#[test]
fn legacy_catalog_contains_ccx_entrypoint() {
    let files = vec![
        ("results.f".to_string(), b"      end\n".to_vec()),
        ("ccx_2.23.c".to_string(), b"int main() {}\n".to_vec()),
        ("CalculiX.h".to_string(), Vec::new()),
    ];
    let units = legacy_units(&files);
    assert!(units.iter().any(|unit| unit.legacy_rel_path == "ccx_2.23.c"));
}

#[test]
fn solver_catalog_is_sorted_and_knows_superseded_sources() {
    let files = vec![
        ("superseded/nident.f".to_string(), b"a\nb\n".to_vec()),
        ("results.f".to_string(), b"x".to_vec()),
        ("ccx_2.23.c".to_string(), Vec::new()),
        ("superseded/readme.txt".to_string(), Vec::new()),
    ];
    let units = legacy_units(&files);
    let paths: Vec<&str> = units.iter().map(|u| u.legacy_rel_path.as_str()).collect();
    assert_eq!(paths, vec!["ccx_2.23.c", "results.f", "superseded/nident.f", "superseded/readme.txt"]);
    assert_eq!(units[2].line_count, 3);
    assert_eq!(units[2].language, LegacyLanguage::Fortran);
    assert_eq!(superseded_fortran_paths(&units), vec!["superseded/nident.f".to_string()]);
    assert!(is_superseded_fortran("superseded/cident.f"));
    assert!(!is_superseded_fortran("cident.f"));
    assert!(!is_superseded_fortran("superseded/x.c"));
}

#[test]
fn ported_lookup_matches_known_entries() {
    assert!(is_ported("superseded/cident.f"));
    assert!(!is_ported("ccx_2.23.c"));
}

fn solver_unit(path: &str, language: LegacyLanguage) -> LegacySourceUnit {
    LegacySourceUnit {
        legacy_rel_path: path.to_string(),
        module_name: to_rust_ident(path),
        language,
        line_count: 1,
    }
}

#[test]
fn solver_report_counts() {
    let units = vec![
        solver_unit("ccx_2.23.c", LegacyLanguage::C),
        solver_unit("superseded/cident.f", LegacyLanguage::Fortran),
        solver_unit("superseded/other.f", LegacyLanguage::Fortran),
        solver_unit("results.f", LegacyLanguage::Fortran),
        solver_unit("CalculiX.h", LegacyLanguage::Header),
    ];
    let superseded = vec!["superseded/cident.f".to_string(), "superseded/other.f".to_string()];
    let report = migration_report(&units, &superseded);
    assert_eq!(report.total_units, 5);
    assert_eq!(report.ported_units, 1);
    assert_eq!(report.superseded_fortran_units, 2);
    assert_eq!(report.pending_units, 3);
    assert_eq!(
        report.by_language,
        vec![(LegacyLanguage::C, 1), (LegacyLanguage::Fortran, 3), (LegacyLanguage::Header, 1)]
    );
    assert_eq!(ported_units().len(), 9);
}
