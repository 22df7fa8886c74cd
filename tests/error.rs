use clrs::{Error, Result};

#[test]
fn error_describes_itself() {
    let e = Error::InvalidArguments("std_dev must be greater than 0".to_string());
    assert_eq!(e.to_string(), "Invalid arguments: std_dev must be greater than 0");
    let r: Result<u8> = Err(e.clone());
    assert_eq!(r, Err(e));
}
