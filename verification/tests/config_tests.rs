use pg_fibertools::config::FiberJectArgs;

#[test]
fn fiber_ject_defaults_to_standard_streams() {
    let args = FiberJectArgs::default();
    assert_eq!(args.bam, "-");
    assert_eq!(args.out, "-");
    assert!(args.gam.is_none());
}
