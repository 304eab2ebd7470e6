use std::collections::HashSet;
use waitforgraph::intern::Internment;
use waitforgraph::graph::Edge;
use waitforgraph::lock::lock_query;
use waitforgraph::lock::Lock;
use waitforgraph::lock::LockInfo;
use waitforgraph::lock::LockMode;
use waitforgraph::lock::LockObj;
use waitforgraph::lock::LockRow;
use waitforgraph::lock::RowError;

use LockMode::AccessExclusiveLock as AE;
use LockMode::AccessShareLock as AS;
use LockMode::ExclusiveLock as E;
use LockMode::RowExclusiveLock as RE;
use LockMode::RowShareLock as RS;
use LockMode::ShareLock as S;
use LockMode::ShareRowExclusiveLock as SRE;
use LockMode::ShareUpdateExclusiveLock as SUE;

const ALL: [LockMode; 8] = [AE, AS, E, RE, RS, S, SRE, SUE];

fn set(modes: &[LockMode]) -> HashSet<LockMode> {
    modes.iter().copied().collect()
}

fn conflict_set(mode: LockMode) -> HashSet<LockMode> {
    let listed = mode.conflict_modes();
    let as_set = set(&listed);
    assert_eq!(as_set.len(), listed.len());
    as_set
}

#[test]
fn conflict_table_row_by_row() {
    assert_eq!(conflict_set(AS), set(&[AE]));
    assert_eq!(conflict_set(RS), set(&[E, AE]));
    assert_eq!(conflict_set(RE), set(&[S, SRE, E, AE]));
    assert_eq!(conflict_set(SUE), set(&[S, SRE, E, AE, SUE]));
    assert_eq!(conflict_set(S), set(&[RE, SRE, SUE, E, AE]));
    assert_eq!(conflict_set(SRE), set(&[RE, S, SUE, E, AE, SRE]));
    assert_eq!(conflict_set(E), set(&[RS, RE, S, SUE, E, SRE, AE]));
    assert_eq!(conflict_set(AE), set(&[RS, AS, RE, S, SUE, E, SRE, AE]));
}

#[test]
fn share_lock_does_not_conflict_with_itself() {
    assert!(!S.conflict_modes().contains(&S));
    assert!(!AS.conflict_modes().contains(&AS));
    assert!(SUE.conflict_modes().contains(&SUE));
}

#[test]
fn mode_names_round_trip() {
    let names = [
        "AccessExclusiveLock",
        "AccessShareLock",
        "ExclusiveLock",
        "RowExclusiveLock",
        "RowShareLock",
        "ShareLock",
        "ShareRowExclusiveLock",
        "ShareUpdateExclusiveLock",
    ];
    for (mode, name) in ALL.iter().zip(names.iter()) {
        assert_eq!(mode.as_str(), *name);
        assert_eq!(LockMode::parse(name), Some(*mode));
    }
}

#[test]
fn unknown_mode_names_are_rejected() {
    assert_eq!(LockMode::parse(""), None);
    assert_eq!(LockMode::parse("sharelock"), None);
    assert_eq!(LockMode::parse("ShareLock "), None);
    assert_eq!(LockMode::parse("ShareLoc"), None);
    assert_eq!(LockMode::parse("NoSuchLock"), None);
}

#[test]
fn mode_keys_are_distinct() {
    let keys: HashSet<u8> = ALL.iter().map(|m| m.key()).collect();
    assert_eq!(keys.len(), 8);
}

fn relation(id: i64) -> LockObj {
    let mut obj = LockObj::default();
    obj.relation = Some(id);
    obj
}

#[test]
fn interning_the_same_target_twice_gives_one_identity() {
    let mut table: Internment<LockObj> = Internment::new();
    let a = table.intern(relation(100));
    let b = table.intern(relation(100));
    assert_eq!(a, b);
    assert_eq!(table.len(), 1);
    assert_eq!(table.get(a), &relation(100));
}

#[test]
fn interning_different_targets_gives_different_identities() {
    let mut table: Internment<LockObj> = Internment::new();
    let a = table.intern(relation(100));
    let mut other = relation(100);
    other.locktype = Some(String::from("relation"));
    let b = table.intern(other.clone());
    let c = table.intern(relation(101));
    assert_ne!(a, b);
    assert_ne!(a, c);
    assert_ne!(b, c);
    assert_eq!(table.len(), 3);
    assert_eq!(table.intern(relation(100)), a);
    assert_eq!(table.intern(other.clone()), b);
    assert_eq!(table.get(b), &other);
    assert_eq!(table.find(&relation(101)), Some(c));
    assert_eq!(table.find(&relation(102)), None);
}

#[test]
fn interning_edges() {
    let mut table: Internment<Edge> = Internment::new();
    let e1 = Edge { waiter: 1, holder: 2, wait: AE, hold: AS, obj: 0 };
    let e2 = Edge { waiter: 1, holder: 2, wait: AE, hold: AS, obj: 1 };
    let e3 = Edge { waiter: 1, holder: 2, wait: AE, hold: RS, obj: 0 };
    let a = table.intern(e1);
    let b = table.intern(e2);
    let c = table.intern(e3);
    assert_eq!(table.intern(e1), a);
    assert_eq!(table.intern(e2), b);
    assert_eq!(table.intern(e3), c);
    assert_eq!(table.len(), 3);
    assert!(a != b && b != c && a != c);
}

#[test]
fn holders_of_a_target_and_mode() {
    let mut info = LockInfo::new();
    let a = info.get_objid(relation(1));
    let b = info.get_objid(relation(2));
    assert_eq!(info.get_objid(relation(1)), a);
    assert_eq!(info.get_obj(b), &relation(2));
    info.add_granted(a, S, 7);
    info.add_granted(a, S, 8);
    info.add_granted(a, S, 7);
    info.add_granted(a, E, 9);
    let want: HashSet<i64> = [7, 8].into_iter().collect();
    assert_eq!(info.get_holders(S, a), Some(&want));
    let want: HashSet<i64> = [9].into_iter().collect();
    assert_eq!(info.get_holders(E, a), Some(&want));
    assert_eq!(info.get_holders(RS, a), None);
    assert_eq!(info.get_holders(S, b), None);
    assert_eq!(info.get_holders(S, 17), None);
}

#[test]
fn waiting_requests_keep_their_order() {
    let mut info = LockInfo::new();
    let a = info.get_objid(relation(1));
    let b = info.get_objid(relation(2));
    info.add_waiter(b, E, 3);
    info.add_waiter(a, S, 3);
    info.add_waiter(a, S, 4);
    let waiting = info.waiters();
    assert_eq!(waiting.len(), 2);
    assert_eq!(waiting[&3], vec![Lock { objid: b, mode: E }, Lock { objid: a, mode: S }]);
    assert_eq!(waiting[&4], vec![Lock { objid: a, mode: S }]);
}

#[test]
fn description_lists_the_known_attributes() {
    assert_eq!(LockObj::default().describe(), "");
    assert_eq!(relation(100).describe(), "relation=100");
    let obj = LockObj {
        locktype: Some(String::from("relation")),
        gp_segment_id: Some(-1),
        virtualxid: None,
        database: Some(5),
        relation: Some(100),
        page: None,
        tuple: None,
        transactionid: None,
        classid: None,
        objid: None,
        objsubid: Some(0),
    };
    assert_eq!(
        obj.describe(),
        "locktype=relation,gp_segment_id=-1,database=5,relation=100,objsubid=0"
    );
    let all = LockObj {
        locktype: Some(String::from("tuple")),
        gp_segment_id: Some(1),
        virtualxid: Some(String::from("3/12")),
        database: Some(2),
        relation: Some(3),
        page: Some(4),
        tuple: Some(5),
        transactionid: Some(6),
        classid: Some(7),
        objid: Some(8),
        objsubid: Some(9),
    };
    assert_eq!(
        all.describe(),
        "locktype=tuple,gp_segment_id=1,virtualxid=3/12,database=2,relation=3,page=4,tuple=5,transactionid=6,classid=7,objid=8,objsubid=9"
    );
}

fn row(relation: &str, mode: &str, session: &str, granted: &str) -> LockRow {
    LockRow {
        locktype: Some(String::from("relation")),
        gp_segment_id: Some(String::from("-1")),
        virtualxid: None,
        database: Some(String::from("12")),
        relation: Some(String::from(relation)),
        page: None,
        tuple: None,
        transactionid: None,
        classid: None,
        objid: None,
        objsubid: None,
        mode: Some(String::from(mode)),
        mppsessionid: Some(String::from(session)),
        granted: Some(String::from(granted)),
    }
}

#[test]
fn a_row_is_read_field_by_field() {
    let got = LockInfo::getlock(&row("100", "ShareLock", "42", "true")).unwrap();
    let want = LockObj {
        locktype: Some(String::from("relation")),
        gp_segment_id: Some(-1),
        virtualxid: None,
        database: Some(12),
        relation: Some(100),
        page: None,
        tuple: None,
        transactionid: None,
        classid: None,
        objid: None,
        objsubid: None,
    };
    assert_eq!(got, (want, S, 42, true));
    let got = LockInfo::getlock(&row("+7", "AccessShareLock", "-3", "false")).unwrap();
    assert_eq!(got.0.relation, Some(7));
    assert_eq!((got.1, got.2, got.3), (AS, -3, false));
}

#[test]
fn each_way_a_row_can_be_bad() {
    let bad = |r: LockRow| LockInfo::getlock(&r).unwrap_err();
    assert_eq!(bad(row("1x", "ShareLock", "42", "true")), RowError::BadNumber);
    assert_eq!(bad(row("", "ShareLock", "42", "true")), RowError::BadNumber);
    assert_eq!(bad(row("1", "LockShare", "42", "true")), RowError::UnknownLockMode);
    assert_eq!(bad(row("1", "ShareLock", "4 2", "true")), RowError::BadSession);
    assert_eq!(bad(row("1", "ShareLock", "42", "t")), RowError::BadFlag);
    assert_eq!(bad(row("1", "ShareLock", "42", "True")), RowError::BadFlag);
    let mut r = row("1", "ShareLock", "42", "true");
    r.mode = None;
    assert_eq!(bad(r), RowError::MissingValue);
    let mut r = row("1", "ShareLock", "42", "true");
    r.mppsessionid = None;
    assert_eq!(bad(r), RowError::MissingValue);
    let mut r = row("1", "ShareLock", "42", "true");
    r.granted = None;
    assert_eq!(bad(r), RowError::MissingValue);
    assert_eq!(bad(row("x", "nope", "y", "z")), RowError::BadNumber);
    assert_eq!(bad(row("1", "nope", "y", "z")), RowError::UnknownLockMode);
    assert_eq!(bad(row("1", "ShareLock", "y", "z")), RowError::BadSession);
}

#[test]
fn a_listing_becomes_a_catalog() {
    let rows = vec![
        row("100", "AccessExclusiveLock", "10", "false"),
        row("100", "AccessShareLock", "20", "true"),
        row("200", "AccessShareLock", "21", "true"),
        row("100", "AccessShareLock", "22", "true"),
    ];
    let info = LockInfo::process(&rows).unwrap();
    let want: HashSet<i64> = [20, 22].into_iter().collect();
    assert_eq!(info.get_holders(AS, 0), Some(&want));
    let want: HashSet<i64> = [21].into_iter().collect();
    assert_eq!(info.get_holders(AS, 1), Some(&want));
    assert_eq!(info.waiters()[&10], vec![Lock { objid: 0, mode: AE }]);
    assert_eq!(info.get_obj(1).relation, Some(200));
}

#[test]
fn a_bad_row_fails_the_listing() {
    let rows = vec![
        row("100", "AccessShareLock", "20", "true"),
        row("100", "NoLock", "10", "false"),
        row("bad", "AccessShareLock", "20", "true"),
    ];
    assert_eq!(LockInfo::process(&rows).err(), Some(RowError::UnknownLockMode));
    assert!(LockInfo::process(&Vec::new()).is_ok());
}

#[test]
fn a_bad_row_leaves_the_catalog_alone() {
    let mut info = LockInfo::new();
    assert_eq!(info.process_row(&row("100", "AccessShareLock", "20", "true")), Ok(()));
    assert_eq!(
        info.process_row(&row("101", "AccessShareLock", "x", "true")),
        Err(RowError::BadSession)
    );
    assert_eq!(info.get_objid(relation_row_target(101)), 1);
}

fn relation_row_target(id: i64) -> LockObj {
    LockInfo::getlock(&row(&format!("{}", id), "ShareLock", "1", "true")).unwrap().0
}

#[test]
fn the_query_depends_on_the_major_version() {
    assert!(lock_query(4).starts_with("select null as virtualxid,gp_segment_id,"));
    assert!(lock_query(0).starts_with("select null as virtualxid,"));
    assert!(lock_query(5).starts_with("select virtualxid,gp_segment_id,"));
    assert!(lock_query(6).ends_with(
        "mode,case when granted = 't' then 'true' else 'false' end as granted,mppsessionid from pg_locks"
    ));
    assert_eq!(lock_query(4).replacen("null as ", "", 1), lock_query(7));
}
