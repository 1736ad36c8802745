use overload_eval::test_env::{env_with_stub, OVERLOADED_STUB};

#[test]
fn stub_env_holds_foo() {
    let t = env_with_stub();
    assert_eq!(t.len(), 1);
    let (name, path, code) = t.module(0);
    assert_eq!(name, "foo");
    assert_eq!(path, "foo.pyi");
    assert_eq!(code, OVERLOADED_STUB);
    assert!(code.contains("def f(x: int) -> int: ..."));
}
