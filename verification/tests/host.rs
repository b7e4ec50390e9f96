use plush::paths::path_text_safe;
use plush::utils::unit_key;

#[test]
fn refused_names_and_extensions()
{
    assert!(!path_text_safe("run_me.sh"));
    assert!(!path_text_safe("run_me.exe"));
    assert!(!path_text_safe("lib.dylib"));
    assert!(!path_text_safe("script.py"));
    assert!(!path_text_safe("app.jar"));
    assert!(!path_text_safe("run_me.SH"));
    assert!(!path_text_safe("MALWARE.Exe"));
    assert!(!path_text_safe("src/main.rs"));
    assert!(!path_text_safe("vm/src/host.rs"));
    assert!(!path_text_safe(".cargo/config.toml"));
    assert!(!path_text_safe(".git/config"));
    assert!(!path_text_safe(".github/workflows/test.yml"));
    assert!(!path_text_safe("../.git/config"));
    assert!(!path_text_safe("Cargo.toml"));
    assert!(!path_text_safe("Cargo.lock"));
    assert!(!path_text_safe("vm/Cargo.toml"));
    assert!(!path_text_safe("SRC/main.rs"));
    assert!(!path_text_safe(".GitHub/workflows/test.yml"));
    assert!(!path_text_safe("CARGO.TOML"));
    assert!(!path_text_safe("  run_me.sh  "));
}

#[test]
fn accepted_names()
{
    assert!(path_text_safe("."));
    assert!(path_text_safe("foo.txt"));
    assert!(path_text_safe("data.csv"));
    assert!(path_text_safe("docs/language.md"));
    assert!(path_text_safe(".sh"));
    assert!(!path_text_safe("dir.sh/"));
    assert!(path_text_safe("a/source/b"));
    assert!(path_text_safe(".."));
}

#[test]
fn std_module_keys()
{
    assert_eq!(unit_key("json"), "<std>/json.psh");
    assert_eq!(unit_key(""), "<std>/.psh");
}
