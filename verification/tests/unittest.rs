use buruma::constants::WatcherType;
use buruma::paths::validate_path;

#[test]
fn test_as() {
    let code: i32 = WatcherType::Any.code();
    println!("{}", code);
}

#[test]
fn test_error() {}

#[test]
fn test_validate_path() {
    if let Err(e) = validate_path("") {
        println!("{:?}", e);
    }
    if let Err(e) = validate_path("123") {
        println!("{:?}", e);
    }
    if let Err(e) = validate_path("/123/") {
        println!("{:?}", e);
    }
}

#[test]
fn test_from_string() {
    println!("hello")
}
