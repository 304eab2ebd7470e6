use waitforgraph::gpdbcli::autofill_opt;
use waitforgraph::gpdbcli::get_config;
use waitforgraph::gpdbcli::split_version;
use waitforgraph::gpdbcli::ConfigError;
use waitforgraph::gpdbcli::ConnFill;
use waitforgraph::gpdbcli::ConnState;
use waitforgraph::gpdbcli::EnvOverrides;
use waitforgraph::gpdbcli::GPDBVersion;
use waitforgraph::gpdbcli::SemVer;

fn parts(verstr: &str, numbers: &str) -> Option<(String, String)> {
    Some((String::from(verstr), String::from(numbers)))
}

#[test]
fn the_version_is_cut_out_of_the_banner() {
    assert_eq!(
        split_version(
            "PostgreSQL 9.4.24 (Greenplum Database 6.3.0 build dev) on x86_64-pc-linux-gnu"
        ),
        parts("6.3.0 build dev", "6.3.0")
    );
    assert_eq!(split_version("(Greenplum Database 6.3.0 build dev)"), parts("6.3.0 build dev", "6.3.0"));
    assert_eq!(
        split_version("x (Greenplum Database 4.3.99.00 build 1) (y)"),
        parts("4.3.99.00 build 1", "4.3.99")
    );
    assert_eq!(split_version("(Greenplum Database 5.0.0)"), parts("5.0.0", "5.0.0"));
    assert_eq!(
        split_version("(Greenplum Database 6.0.0-beta.3 build x)"),
        parts("6.0.0-beta.3 build x", "6.0.0-beta")
    );
    assert_eq!(split_version("(Greenplum Database 1..2)"), parts("1..2", "1..2"));
}

#[test]
fn banners_without_a_version() {
    assert_eq!(split_version(""), None);
    assert_eq!(split_version("PostgreSQL 9.4.24 on x86_64"), None);
    assert_eq!(split_version("(Greenplum Database 6.3.0 build dev"), None);
    assert_eq!(split_version("(PostgreSQL) (Greenplum Database 6.3.0 build dev)"), None);
    assert_eq!(split_version("(Greenplum Database 6.3 build dev)"), None);
    assert_eq!(split_version("(Greenplum Database 6 3.0.0)"), None);
    assert_eq!(split_version("(greenplum database 6.3.0)"), None);
}

#[test]
fn the_numbers_of_the_version() {
    let v = GPDBVersion::new(
        "PostgreSQL 9.4.24 (Greenplum Database 6.3.0 build dev) on x86_64-pc-linux-gnu",
    )
    .unwrap();
    assert_eq!(v.verstr, "6.3.0 build dev");
    assert_eq!(v.semver, SemVer { major: 6, minor: 3, patch: 0 });
    let v = GPDBVersion::new("(Greenplum Database 4.3.99.00 build 1)").unwrap();
    assert_eq!(v.verstr, "4.3.99.00 build 1");
    assert_eq!(v.semver, SemVer { major: 4, minor: 3, patch: 99 });
    let v = GPDBVersion::new("(Greenplum Database 6.0.0-beta.3 build x)").unwrap();
    assert_eq!(v.semver, SemVer { major: 6, minor: 0, patch: 0 });
}

#[test]
fn versions_that_are_no_versions() {
    assert_eq!(GPDBVersion::new("PostgreSQL 9.4.24"), None);
    assert_eq!(GPDBVersion::new("(Greenplum Database 6.03.0 build dev)"), None);
    assert_eq!(GPDBVersion::new("(Greenplum Database six.3.0)"), None);
    assert_eq!(GPDBVersion::new("(Greenplum Database 1..2)"), None);
    assert_eq!(GPDBVersion::new("(Greenplum Database 6.3)"), None);
}

#[test]
fn numbers_make_the_version() {
    assert_eq!(
        GPDBVersion::with_numbers(String::from("6.3.0 build dev"), Some((6, 3, 0))),
        Some(GPDBVersion {
            verstr: String::from("6.3.0 build dev"),
            semver: SemVer { major: 6, minor: 3, patch: 0 },
        })
    );
    assert_eq!(GPDBVersion::with_numbers(String::from("6.3.0"), None), None);
}

fn nothing_set() -> ConnState {
    ConnState {
        has_host: false,
        has_port: false,
        user: None,
        has_dbname: false,
        has_application_name: false,
    }
}

fn no_env() -> EnvOverrides {
    EnvOverrides { pghost: None, pgport: None, pguser: None, pgdatabase: None, pgappname: None }
}

fn text(s: &str) -> Option<String> {
    Some(String::from(s))
}

#[test]
fn an_open_parameter_takes_the_environment_then_the_default() {
    assert_eq!(autofill_opt(true, &text("env"), "def"), None);
    assert_eq!(autofill_opt(true, &None, "def"), None);
    assert_eq!(autofill_opt(false, &text("env"), "def"), text("env"));
    assert_eq!(autofill_opt(false, &None, "def"), text("def"));
    assert_eq!(autofill_opt(false, &text(""), "def"), text(""));
}

#[test]
fn the_defaults() {
    assert_eq!(
        get_config(&nothing_set(), &no_env(), "alice"),
        Ok(ConnFill {
            host: text("127.0.0.1"),
            port: Some(5432),
            user: text("alice"),
            dbname: text("alice"),
            application_name: text("hidva/wait-for-graph"),
        })
    );
}

#[test]
fn the_environment_goes_before_the_defaults() {
    let env = EnvOverrides {
        pghost: text("db.example"),
        pgport: text("6432"),
        pguser: text("bob"),
        pgdatabase: None,
        pgappname: text("probe"),
    };
    assert_eq!(
        get_config(&nothing_set(), &env, "alice"),
        Ok(ConnFill {
            host: text("db.example"),
            port: Some(6432),
            user: text("bob"),
            dbname: text("bob"),
            application_name: text("probe"),
        })
    );
    let env = EnvOverrides { pgdatabase: text("sales"), ..env };
    assert_eq!(get_config(&nothing_set(), &env, "alice").unwrap().dbname, text("sales"));
}

#[test]
fn what_is_set_stays() {
    let state = ConnState {
        has_host: true,
        has_port: true,
        user: text("carol"),
        has_dbname: false,
        has_application_name: true,
    };
    let env = EnvOverrides {
        pghost: text("db.example"),
        pgport: text("not a port"),
        pguser: text("bob"),
        pgdatabase: None,
        pgappname: text("probe"),
    };
    assert_eq!(
        get_config(&state, &env, "alice"),
        Ok(ConnFill { host: None, port: None, user: None, dbname: text("carol"), application_name: None })
    );
    let state = ConnState { has_dbname: true, ..state };
    assert_eq!(get_config(&state, &env, "alice").unwrap().dbname, None);
}

#[test]
fn a_port_that_is_no_port() {
    for port in ["", "http", "65536", "-1", "54 32"] {
        let env = EnvOverrides { pgport: text(port), ..no_env() };
        assert_eq!(get_config(&nothing_set(), &env, "alice"), Err(ConfigError::BadPort));
    }
    let env = EnvOverrides { pgport: text("+65535"), ..no_env() };
    assert_eq!(get_config(&nothing_set(), &env, "alice").unwrap().port, Some(65535));
}
