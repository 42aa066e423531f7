use car_go_clean::identity::{
    linux_boot_session_from_read, macos_boot_session_from_sysctl_result, macos_boot_session_from_timeval, BootSessionId,
    BootTime, BOOT_TIME_LENGTH,
};

#[test]
fn linux_boot_session_accepts_only_valid_uuid_text() {
    assert_eq!(
        linux_boot_session_from_read(Err(std::io::Error::from(std::io::ErrorKind::NotFound))),
        None
    );
    assert_eq!(linux_boot_session_from_read::<()>(Ok("  \n".to_string())), None);
    assert_eq!(
        linux_boot_session_from_read::<()>(Ok("not-a-boot-uuid\n".to_string())),
        None
    );
    assert_eq!(
        linux_boot_session_from_read::<()>(Ok("ABCDEF01-2345-6789-abcd-ef0123456789\n".to_string())),
        Some(BootSessionId(
            "ABCDEF01-2345-6789-abcd-ef0123456789".to_string()
        ))
    );
}

#[test]
fn macos_sysctl_result_requires_valid_shape_and_timeval() {
    let valid = BootTime {
        tv_sec: 1_725_000_000,
        tv_usec: 42,
    };
    assert_eq!(
        macos_boot_session_from_sysctl_result(
            -1,
            BOOT_TIME_LENGTH,
            Some(valid),
        ),
        None
    );
    assert_eq!(
        macos_boot_session_from_sysctl_result(0, 1, Some(valid)),
        None
    );
    assert_eq!(
        macos_boot_session_from_sysctl_result(
            0,
            BOOT_TIME_LENGTH,
            Some(valid),
        ),
        Some(BootSessionId("1725000000:42".to_string()))
    );
    assert_eq!(
        macos_boot_session_from_timeval(BootTime {
            tv_sec: -1,
            tv_usec: 42,
        }),
        None
    );
    assert_eq!(
        macos_boot_session_from_timeval(BootTime {
            tv_sec: 1_725_000_000,
            tv_usec: 1_000_000,
        }),
        None
    );
}
