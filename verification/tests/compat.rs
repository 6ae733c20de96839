use ccx::compat::{canonical_symbol, fortran_symbol, rust_module_from_legacy_path, LegacyLanguage};

#[test]
fn canonicalizes_c_symbols() {
    assert_eq!(canonical_symbol(" compare\0", LegacyLanguage::C), "compare");
}

#[test]
fn canonicalizes_fortran_symbols() {
    assert_eq!(
        canonical_symbol("NIDENT2", LegacyLanguage::Fortran),
        "nident2_"
    );
    assert_eq!(fortran_symbol("calc_"), "calc_");
}

#[test]
fn converts_legacy_path_to_rust_module_name() {
    assert_eq!(
        rust_module_from_legacy_path("superseded/nident2.f"),
        "superseded_nident2_f"
    );
}

#[test]
fn fortran_symbol_of_empty_name_is_underscore() {
    assert_eq!(fortran_symbol("  "), "_");
    assert_eq!(canonical_symbol("a-b c", LegacyLanguage::C), "abc");
}

#[test]
fn symbol_rules_are_idempotent() {
    for name in [" compare\0", "NIDENT2", "calc_", "a-b c", ""] {
        let c = canonical_symbol(name, LegacyLanguage::C);
        assert_eq!(canonical_symbol(&c, LegacyLanguage::C), c);
        let f = fortran_symbol(name);
        assert_eq!(fortran_symbol(&f), f);
        let m = rust_module_from_legacy_path(name);
        assert_eq!(rust_module_from_legacy_path(&m), m);
    }
}
