use declmig_lib_core::schema_parity::ParityError;

#[test]
fn errors_display_as_their_names() {
    assert_eq!(ParityError::Io.name(), "Io");
    assert_eq!(ParityError::InvalidJson.name(), "InvalidJson");
    assert_eq!(ParityError::UnknownPrimaryKeyColumn.name(), "UnknownPrimaryKeyColumn");
    assert_eq!(ParityError::InvalidArgument.name(), format!("{:?}", ParityError::InvalidArgument));
}
