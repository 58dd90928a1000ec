use tardi::errors::{CompilerError, Error};
use tardi::loader::Loader;

// The file tree these tests look into, as a canonicalising resolver
// would see it, with the working directory at `/work`.
const CWD: &str = "/work";
const FILES: [&str; 5] = [
    "/work/tests/fixtures/basic-test.tardi",
    "/work/tests/fixtures/test-fixture.tardi",
    "/work/tests/modules/hello.tardi",
    "/work/tests/modules/basic-test.tardi",
    "/work/src/bootstrap/00-core-macros.tardi",
];

fn normalize(path: &str) -> String {
    let full = if path.starts_with('/') {
        path.to_string()
    } else {
        format!("{}/{}", CWD, path)
    };
    let mut parts: Vec<&str> = Vec::new();
    for part in full.split('/') {
        match part {
            "" | "." => {}
            ".." => {
                parts.pop();
            }
            p => parts.push(p),
        }
    }
    format!("/{}", parts.join("/"))
}

fn resolve(path: &str) -> Option<String> {
    let p = normalize(path);
    if FILES.contains(&p.as_str()) {
        Some(p)
    } else {
        None
    }
}

fn setup() -> Loader {
    let paths = vec![CWD.to_string(), normalize("./tests/modules")];
    Loader::new(&paths)
}

#[test]
fn test_module_loader_finds_file_in_current() {
    let expected = resolve("tests/fixtures/basic-test.tardi").unwrap();
    let expected = ("tests/fixtures/basic-test".to_string(), expected);
    let loader = setup();

    let result = loader.find("tests/fixtures/basic-test", None, &resolve);
    assert!(result.is_ok(), "error: {:?}", result);
    let target = result.unwrap();

    assert!(target.is_some(), "option: {:?}", target);
    let target = target.unwrap();
    assert_eq!(expected, target);
}

#[test]
fn test_module_loader_finds_file_in_path() {
    let expected = resolve("tests/modules/hello.tardi").unwrap();
    let expected = ("hello".to_string(), expected);
    let loader = setup();

    let result = loader.find("hello", None, &resolve);
    assert!(result.is_ok(), "error: {:?}", result);
    let target = result.unwrap();

    assert!(target.is_some(), "option: {:?}", target);
    let target = target.unwrap();
    assert_eq!(expected, target);
}

#[test]
fn test_module_loader_does_not_find_files() {
    let loader = setup();

    let result = loader.find("does/not/exist", None, &resolve);
    assert!(result.is_ok(), "error: {:?}", result);
    let target = result.unwrap();

    assert!(target.is_none(), "option: {:?}", target);
}

#[test]
fn test_module_loader_finds_relative_files() {
    let context = resolve("tests/modules/hello.tardi").unwrap();
    let expected = resolve("tests/fixtures/basic-test.tardi").unwrap();
    let expected = ("basic-test".to_string(), expected);
    let loader = setup();

    let result = loader.find("../fixtures/basic-test", Some(context.as_str()), &resolve);
    assert!(result.is_ok(), "error: {:?}", result);
    let target = result.unwrap();

    assert!(target.is_some(), "option: {:?}", target);
    let target = target.unwrap();
    assert_eq!(expected, target);
}

#[test]
fn test_module_loader_does_not_find_relative_files_without_context() {
    let loader = setup();

    let result = loader.find("../fixtures/basic-test", None, &resolve);
    assert!(result.is_err(), "ok: {:?}", result);
    assert!(matches!(
        result.unwrap_err(),
        Error::CompilerError(CompilerError::ModuleNotFound(name)) if name == "../fixtures/basic-test"
    ));
}

#[test]
fn test_module_loader_does_not_find_relative_files_that_dont_exist() {
    let context = resolve("tests/modules/hello.tardi").unwrap();
    let loader = setup();

    let result = loader.find("../does-not-exist/basic-test", Some(context.as_str()), &resolve);
    assert!(result.is_ok(), "error: {:?}", result);
    let target = result.unwrap();

    assert!(target.is_none(), "option: {:?}", target);
}

#[test]
fn test_find_abs_module_when_file_missing() {
    let loader = Loader::new(&[normalize("tests/modules")]);

    let result = loader.find_abs_module(
        "tests/fixtures/test-fixture.tardi",
        "../modules/does-not-exist",
        &resolve,
    );

    assert!(result.is_ok(), "error: {:?}", result);
    let result = result.unwrap();
    assert!(result.is_none(), "option: {:?}", result);
}

#[test]
fn test_find_abs_module_when_outside_search_path() {
    let expected = resolve("src/bootstrap/00-core-macros.tardi").unwrap();
    let loader = Loader::new(&[normalize("tests/modules")]);

    let result = loader.find_abs_module(
        &format!("{}/tests/fixtures/test-fixture.tardi", CWD),
        "../../src/bootstrap/00-core-macros",
        &resolve,
    );

    assert!(
        result
            .as_ref()
            .is_err_and(|err| matches!(err, CompilerError::InvalidModulePath(p) if p == &expected)),
        "result: {:?}",
        result
    );
}

#[test]
fn test_find_abs_module_finds_relative_uses() {
    let expected = resolve("tests/modules/basic-test.tardi").unwrap();
    let loader = Loader::new(&[normalize("tests/modules")]);

    let result = loader.find_abs_module(
        &format!("{}/tests/fixtures/test-fixture.tardi", CWD),
        "../modules/basic-test",
        &resolve,
    );

    assert!(
        result.as_ref().is_ok_and(|r| r.is_some()),
        "result: {:?}",
        result
    );
    let (name, target_path) = result.unwrap().unwrap();
    assert_eq!(name, "basic-test".to_string());
    assert_eq!(target_path, expected);
}

#[test]
fn loader_asks_each_directory_in_order() {
    let loader = setup();
    assert_eq!(
        loader.candidates("std/io"),
        vec!["/work/std/io.tardi".to_string(), "/work/tests/modules/std/io.tardi".to_string()]
    );
}

#[test]
fn find_abs_module_without_parent_is_refused() {
    let loader = setup();
    let result = loader.find_abs_module("", "./x", &resolve);
    assert!(matches!(result, Err(CompilerError::InvalidModulePath(p)) if p.is_empty()));
}
