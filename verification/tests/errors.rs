use zebra::error::{error_my_bgp_test, error_my_test, MyBgpError, MyError};

#[test]
fn downcast_my() {
    if let Err(err) = error_my_test() {
        assert_eq!(err, MyError {});
        println!("MyError: {}", err.message());
    } else {
        panic!("error_my_test must fail");
    }
}

#[test]
fn downcast_my_bgp() {
    if let Err(err) = error_my_bgp_test() {
        assert_eq!(err, MyBgpError::BgpError);
        println!("MyBgpError: {}", err.message());
    } else {
        panic!("error_my_bgp_test must fail");
    }
}

#[test]
fn error_messages() {
    assert_eq!(MyError {}.message(), "Fail error occurred.");
    assert_eq!(MyBgpError::BgpError.message(), "This is BGP error");
}
