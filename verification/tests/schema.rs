//! Checkpoint scalar schema checks.

use ferro::schema::{validate_scalars, SchemaMismatch};

fn entries(v: &[(&str, u64)]) -> Vec<(String, u64)> {
    v.iter().map(|(k, x)| (k.to_string(), *x)).collect()
}

#[test]
fn configuration_must_match_and_modes_may_flip() {
    let expected = entries(&[("hidden", 64), ("mode.training", 1)]);
    assert!(validate_scalars(&expected, &entries(&[("mode.training", 0), ("hidden", 64)])).is_ok());
    assert!(validate_scalars(&expected, &entries(&[("hidden", 64), ("mode.training", 1)])).is_ok());
    assert_eq!(validate_scalars(&expected, &entries(&[("hidden", 32), ("mode.training", 1)])), Err(SchemaMismatch));
    assert_eq!(validate_scalars(&expected, &entries(&[("hidden", 64), ("mode.training", 2)])), Err(SchemaMismatch));
    assert_eq!(validate_scalars(&expected, &entries(&[("hidden", 64)])), Err(SchemaMismatch));
    assert_eq!(validate_scalars(&expected, &entries(&[("hidden", 64), ("mode.eval", 1)])), Err(SchemaMismatch));
    assert!(validate_scalars(&entries(&[]), &entries(&[])).is_ok());
    assert_eq!(SchemaMismatch.message(), "Python module configuration/mode schema mismatch");
}
