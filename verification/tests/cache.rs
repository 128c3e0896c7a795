//! Placeholders for the on-disk result cache, which is not part of the
//! verified core; its intended behaviour is sketched by these cases.

#[test]
fn is_cached_should_true() {}

#[test]
fn is_not_cached_should_false() {}

#[test]
fn is_not_cached_but_file_exists_should_return_false() {}

#[test]
fn is_cached_should_return_some_data() {}

#[test]
fn is_cached_and_out_of_date_should_some_updated_data() {}

#[test]
fn is_not_cached_should_return_none() {}

#[test]
fn is_not_cached_but_file_exists_should_some_data() {}

#[test]
fn is_cached_should_ok() {}

#[test]
fn is_cached_but_out_of_date_should_ok() {}

#[test]
fn is_not_cached_but_can_be_loaded_should_ok() {}

#[test]
fn is_not_cached_but_cannot_be_loaded_should_err() {}
