use clawpal::install::{configure, pull, up, DockerInstallOptions, InstallError};

#[test]
fn pull_returns_step_result_on_dry_run() {
    let options = DockerInstallOptions {
        dry_run: true,
        ..DockerInstallOptions::default()
    };
    let result = pull(&options, false).expect("pull");
    assert!(result.ok);
}

#[test]
fn configure_returns_step_result_on_dry_run() {
    let options = DockerInstallOptions {
        dry_run: true,
        ..DockerInstallOptions::default()
    };
    let result = configure(&options).expect("configure");
    assert!(result.ok);
}

#[test]
fn up_returns_step_result_on_dry_run() {
    let options = DockerInstallOptions {
        dry_run: true,
        ..DockerInstallOptions::default()
    };
    let result = up(&options, false).expect("up");
    assert!(result.ok);
}

#[test]
fn dry_run_details_are_marked() {
    let options = DockerInstallOptions {
        dry_run: true,
        ..DockerInstallOptions::default()
    };
    let result = pull(&options, false).unwrap();
    assert_eq!(result.step, "docker_pull");
    assert_eq!(result.detail, "dry-run: docker compose pull");
}

#[test]
fn missing_docker_fails_a_real_run() {
    let options = DockerInstallOptions::default();
    assert_eq!(
        up(&options, false),
        Err(InstallError::Step("docker_up failed: docker compose up -d".to_string()))
    );
    let ok = up(&options, true).unwrap();
    assert_eq!(ok.detail, "docker compose up -d");
    let conf = configure(&options).unwrap();
    assert_eq!(conf.step, "docker_configure");
    assert_eq!(conf.detail, "write docker env/config");
}
