use wsl_manager::models::FieldMap;
use wsl_manager::version::{
    find_field_by_keywords, mock_wsl_version, parse_key_value_lines, select_by_keywords,
    wsl_version_from_outputs,
};
use wsl_manager::error::WslError;

fn pairs(m: &FieldMap) -> Vec<(String, String)> {
    (0..m.len()).map(|i| (m.key(i).clone(), m.value(i).clone())).collect()
}

#[test]
fn key_value_lines() {
    let m = parse_key_value_lines("WSL version: 2.1.5.0\r\nno colon here\n : empty key\nKernel version: 5.15:1\nWSL version: 9\n");
    assert_eq!(
        pairs(&m),
        vec![
            ("WSL version".to_string(), "9".to_string()),
            ("Kernel version".to_string(), "5.15:1".to_string()),
        ]
    );
}

#[test]
fn keyword_lookup_is_case_insensitive_and_ordered() {
    let m = parse_key_value_lines("Windows Version: 10.0\nWSLg version: 1.0.59\nKERNEL 版本: 6.1\n");
    assert_eq!(find_field_by_keywords(&m, &["kernel version", "kernel 版本", "wslg version"]), Some("6.1".to_string()));
    assert_eq!(find_field_by_keywords(&m, &["windows version"]), Some("10.0".to_string()));
    assert_eq!(find_field_by_keywords(&m, &["wsl version"]), None);
}

#[test]
fn selection_over_given_lowered_keys() {
    let m = parse_key_value_lines("A: 1\nB: 2\n");
    let lowered = vec!["xx".to_string(), "kernel version".to_string()];
    assert_eq!(select_by_keywords(&lowered, &m, &["nothing", "kernel"]), Some("2".to_string()));
    assert_eq!(select_by_keywords(&lowered, &m, &["zz"]), None);
}

#[test]
fn version_fields_take_precedence_over_status() {
    let v = wsl_version_from_outputs(
        Some("WSL version: 2.0\nKernel version: 5.15\n"),
        Some("WSL version: 1.0\nDefault Version: 2\n"),
    )
    .unwrap();
    assert_eq!(
        pairs(&v.fields),
        vec![
            ("WSL version".to_string(), "2.0".to_string()),
            ("Kernel version".to_string(), "5.15".to_string()),
            ("Default Version".to_string(), "2".to_string()),
        ]
    );
    assert_eq!(v.wsl_version, Some("2.0".to_string()));
    assert_eq!(v.kernel_version, Some("5.15".to_string()));
    assert_eq!(v.windows_version, None);
    assert_eq!(
        v.raw,
        "--version output --\nWSL version: 2.0\nKernel version: 5.15\n\n--status output --\nWSL version: 1.0\nDefault Version: 2"
    );
}

#[test]
fn status_alone_and_nothing_at_all() {
    let v = wsl_version_from_outputs(None, Some("Windows 版本: 10.0.19045\n")).unwrap();
    assert_eq!(v.windows_version, Some("10.0.19045".to_string()));
    assert_eq!(v.raw, "--status output --\nWindows 版本: 10.0.19045");
    assert!(matches!(wsl_version_from_outputs(None, None), Err(WslError::NotAvailable)));
    assert!(matches!(wsl_version_from_outputs(Some("no fields"), Some("")), Err(WslError::NotAvailable)));
}

#[test]
fn mock_version_report() {
    let v = mock_wsl_version();
    assert_eq!(v.wsl_version.as_deref(), Some("2.0.14.0"));
    assert_eq!(v.kernel_version.as_deref(), Some("5.15.133.1-1"));
    assert_eq!(v.windows_version.as_deref(), Some("10.0.22631.2861"));
    assert_eq!(pairs(&v.fields).len(), 3);
    assert_eq!(v.raw, "WSL version: 2.0.14.0\nKernel version: 5.15.133.1-1\nWindows version: 10.0.22631.2861");
}
