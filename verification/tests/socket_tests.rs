use unix_socket_based_client_server::socket::BuildStep;
use unix_socket_based_client_server::socket::SocketBuilder;
use unix_socket_based_client_server::socket::SocketError;
use unix_socket_based_client_server::socket::advance_build;
use unix_socket_based_client_server::socket::initial_step;

#[test]
fn build_requires_a_path() {
    assert_eq!(SocketBuilder::new().build().unwrap_err(), SocketError::Config);
    assert_eq!(
        SocketBuilder::new()
            .with_permissions(0o700)
            .nonblocking(true)
            .build()
            .unwrap_err(),
        SocketError::Config
    );
}

#[test]
fn build_fills_in_the_staged_options_and_defaults() {
    let config = SocketBuilder::new().with_path("socket").build().unwrap();
    assert_eq!(config.path, "socket");
    assert!(!config.nonblocking);
    assert_eq!(config.permissions, None);

    let config = SocketBuilder::new()
        .with_path("socket")
        .with_permissions(0o700)
        .nonblocking(true)
        .build()
        .unwrap();
    assert_eq!(config.path, "socket");
    assert!(config.nonblocking);
    assert_eq!(config.permissions, Some(0o700));
}

#[test]
fn stale_socket_file_is_removed_and_the_build_proceeds() {
    let config = SocketBuilder::new()
        .with_path("socket")
        .with_permissions(0o700)
        .build()
        .unwrap();

    // a stale entry at the path: the build starts with cleanup, and once the
    // removal succeeds it runs exactly like a build at a fresh path
    let mut step = initial_step(true);
    assert_eq!(step, BuildStep::RemoveStale);
    step = advance_build(&config, step, true).unwrap();
    assert_eq!(step, BuildStep::Bind);
    step = advance_build(&config, step, true).unwrap();
    assert_eq!(step, BuildStep::SetPermissions);
    step = advance_build(&config, step, true).unwrap();
    assert_eq!(step, BuildStep::SetBlockingMode);
    step = advance_build(&config, step, true).unwrap();
    assert_eq!(step, BuildStep::Ready);

    // a fresh path skips straight to bind
    assert_eq!(initial_step(false), BuildStep::Bind);
}

#[test]
fn each_build_step_failure_is_classified() {
    let with_permissions = SocketBuilder::new()
        .with_path("socket")
        .with_permissions(0o600)
        .build()
        .unwrap();
    let without_permissions = SocketBuilder::new().with_path("socket").build().unwrap();

    assert_eq!(
        advance_build(&with_permissions, BuildStep::RemoveStale, false).unwrap_err(),
        SocketError::Bind
    );
    assert_eq!(
        advance_build(&with_permissions, BuildStep::Bind, false).unwrap_err(),
        SocketError::Bind
    );
    assert_eq!(
        advance_build(&with_permissions, BuildStep::SetPermissions, false).unwrap_err(),
        SocketError::Permission
    );
    assert_eq!(
        advance_build(&with_permissions, BuildStep::SetBlockingMode, false).unwrap_err(),
        SocketError::Config
    );

    // permission setting is skipped when no access bits were staged
    assert_eq!(
        advance_build(&without_permissions, BuildStep::Bind, true).unwrap(),
        BuildStep::SetBlockingMode
    );
    assert_eq!(
        advance_build(&with_permissions, BuildStep::Bind, true).unwrap(),
        BuildStep::SetPermissions
    );
}
