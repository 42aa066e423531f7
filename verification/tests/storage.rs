use car_go_clean::path::PathBuf;
use car_go_clean::resolve::{Answer, Resolution, Resolutions};
use car_go_clean::storage::{
    classify_protected_path_for, protected, protected_roots_for, HostPlatform, ProtectedKind,
};

#[test]
fn macos_profile_maps_every_protected_root() {
    let home = &PathBuf::new("/Users/tester");
    let roots = protected_roots_for(home, HostPlatform::MacOs);

    assert_eq!(
        roots,
        vec![
            protected(home, ".cargo", ProtectedKind::ManagedCache),
            protected(home, ".rustup", ProtectedKind::ManagedCache),
            protected(home, ".cache", ProtectedKind::ManagedCache),
            protected(home, ".bun/install/cache", ProtectedKind::ManagedCache),
            protected(home, "go/pkg/mod", ProtectedKind::ManagedCache),
            protected(home, ".colima", ProtectedKind::ContainerStorage),
            protected(home, ".lima", ProtectedKind::ContainerStorage),
            protected(
                home,
                ".local/share/containers",
                ProtectedKind::ContainerStorage,
            ),
            protected(home, "Library", ProtectedKind::ManagedCache),
            protected(home, ".Trash", ProtectedKind::ManagedCache),
            protected(home, "OrbStack", ProtectedKind::ContainerStorage),
        ]
    );
}

#[test]
fn linux_profile_maps_every_protected_root() {
    let home = &PathBuf::new("/home/tester");
    let roots = protected_roots_for(home, HostPlatform::Linux);

    assert_eq!(
        roots,
        vec![
            protected(home, ".cargo", ProtectedKind::ManagedCache),
            protected(home, ".rustup", ProtectedKind::ManagedCache),
            protected(home, ".cache", ProtectedKind::ManagedCache),
            protected(home, ".bun/install/cache", ProtectedKind::ManagedCache),
            protected(home, "go/pkg/mod", ProtectedKind::ManagedCache),
            protected(home, ".colima", ProtectedKind::ContainerStorage),
            protected(home, ".lima", ProtectedKind::ContainerStorage),
            protected(
                home,
                ".local/share/containers",
                ProtectedKind::ContainerStorage,
            ),
            protected(home, ".local/share/docker", ProtectedKind::ContainerStorage,),
            protected(home, ".docker/desktop", ProtectedKind::ContainerStorage),
            protected(
                home,
                ".local/share/rancher-desktop",
                ProtectedKind::ContainerStorage,
            ),
            protected(home, ".local/share/Trash", ProtectedKind::ManagedCache),
        ]
    );
}

#[test]
fn relative_or_missing_home_returns_no_anchored_roots() {
    assert!(protected_roots_for(&PathBuf::new(""), HostPlatform::MacOs).is_empty());
    assert!(protected_roots_for(&PathBuf::new("relative-home"), HostPlatform::Linux).is_empty());
}

#[test]
fn similarly_named_paths_outside_home_are_not_classified() {
    let home = &PathBuf::new("/Users/tester");
    let path = "/tmp/tester/.cargo/registry/src/copied-crate";
    let mut known = Resolutions::new();
    known.record(PathBuf::new(path), Resolution::NotFound);

    assert_eq!(
        classify_protected_path_for(
            &PathBuf::new(path),
            home,
            HostPlatform::MacOs,
            &known,
        ),
        Answer::Known(None)
    );
}
