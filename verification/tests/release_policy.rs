use declmig_lib_core::{
    schema_release_policy, SchemaReleasePolicy, AUTOMATIC_AUTHORITY_WINNER_ALLOWED,
    PEER_AUTHORITY_CERTIFICATION_FORMAT, SCHEMA_RELEASE_REQUIRES_PEER_PARITY, SCHEMA_REVISION,
};

#[test]
fn public_release_policy_remains_fail_closed() {
    let policy: SchemaReleasePolicy = schema_release_policy();
    assert_eq!(SCHEMA_REVISION, "declmig-0002");
    assert_eq!(
        policy.peer_authority_certification_format,
        PEER_AUTHORITY_CERTIFICATION_FORMAT
    );
    assert!(policy.requires_peer_parity);
    assert!(SCHEMA_RELEASE_REQUIRES_PEER_PARITY);
    assert!(!policy.automatic_authority_winner_allowed);
    assert!(!AUTOMATIC_AUTHORITY_WINNER_ALLOWED);
}

#[test]
fn schema_release_policy_is_fail_closed() {
    assert_eq!(SCHEMA_REVISION, "declmig-0002");
    assert_eq!(
        schema_release_policy(),
        SchemaReleasePolicy {
            peer_authority_certification_format: PEER_AUTHORITY_CERTIFICATION_FORMAT,
            requires_peer_parity: true,
            automatic_authority_winner_allowed: false,
        }
    );
}
