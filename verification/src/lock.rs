//! Lock modes, lock targets and the catalog of one snapshot.

use vstd::prelude::*;
use std::collections::HashMap;
use std::collections::HashSet;
use vstd::std_specs::hash::*;
use vstd::string::StringExecFns;
use crate::text::str_eq;
use crate::text::decimal;
use crate::text::join;
use crate::text::lemma_join_push;
use crate::text::push_i64;
use crate::text::push_item;
use crate::text::chars_of;
use crate::text::parse_i64;
use crate::text::parse_i64_spec;
use crate::intern::interned;
use crate::intern::Internment;
use crate::intern::StructEq;
use crate::get_or_default_ex;

verus! {

/// The eight modes in which a lock can be held or requested.
#[derive(Debug, Clone, Copy, PartialEq, Eq, Hash, Structural)]
pub enum LockMode {
    AccessExclusiveLock,
    AccessShareLock,
    ExclusiveLock,
    RowExclusiveLock,
    RowShareLock,
    ShareLock,
    ShareRowExclusiveLock,
    ShareUpdateExclusiveLock,
}

/// Whether a request for `wait` is blocked by a granted `hold` on the same
/// target.  Each row is declared on its own; nothing is derived by symmetry.
pub open spec fn conflicts(wait: LockMode, hold: LockMode) -> bool {
    match wait {
        LockMode::AccessShareLock => hold == LockMode::AccessExclusiveLock,
        LockMode::RowShareLock => hold == LockMode::ExclusiveLock || hold
            == LockMode::AccessExclusiveLock,
        LockMode::RowExclusiveLock => hold == LockMode::ShareLock || hold
            == LockMode::ShareRowExclusiveLock || hold == LockMode::ExclusiveLock || hold
            == LockMode::AccessExclusiveLock,
        LockMode::ShareUpdateExclusiveLock => hold == LockMode::ShareLock || hold
            == LockMode::ShareRowExclusiveLock || hold == LockMode::ExclusiveLock || hold
            == LockMode::AccessExclusiveLock || hold == LockMode::ShareUpdateExclusiveLock,
        LockMode::ShareLock => hold == LockMode::RowExclusiveLock || hold
            == LockMode::ShareRowExclusiveLock || hold == LockMode::ShareUpdateExclusiveLock
            || hold == LockMode::ExclusiveLock || hold == LockMode::AccessExclusiveLock,
        LockMode::ShareRowExclusiveLock => hold == LockMode::RowExclusiveLock || hold
            == LockMode::ShareLock || hold == LockMode::ShareUpdateExclusiveLock || hold
            == LockMode::ExclusiveLock || hold == LockMode::AccessExclusiveLock || hold
            == LockMode::ShareRowExclusiveLock,
        LockMode::ExclusiveLock => hold != LockMode::AccessShareLock,
        LockMode::AccessExclusiveLock => true,
    }
}

/// The mode with the given name, where there is one.
pub open spec fn mode_named(name: Seq<char>) -> Option<LockMode> {
    if name == "AccessExclusiveLock"@ {
        Some(LockMode::AccessExclusiveLock)
    } else if name == "AccessShareLock"@ {
        Some(LockMode::AccessShareLock)
    } else if name == "ExclusiveLock"@ {
        Some(LockMode::ExclusiveLock)
    } else if name == "RowExclusiveLock"@ {
        Some(LockMode::RowExclusiveLock)
    } else if name == "RowShareLock"@ {
        Some(LockMode::RowShareLock)
    } else if name == "ShareLock"@ {
        Some(LockMode::ShareLock)
    } else if name == "ShareRowExclusiveLock"@ {
        Some(LockMode::ShareRowExclusiveLock)
    } else if name == "ShareUpdateExclusiveLock"@ {
        Some(LockMode::ShareUpdateExclusiveLock)
    } else {
        None
    }
}

impl LockMode {
    /// The name of the mode, as the database prints it.
    pub open spec fn name(self) -> Seq<char> {
        match self {
            LockMode::AccessExclusiveLock => "AccessExclusiveLock"@,
            LockMode::AccessShareLock => "AccessShareLock"@,
            LockMode::ExclusiveLock => "ExclusiveLock"@,
            LockMode::RowExclusiveLock => "RowExclusiveLock"@,
            LockMode::RowShareLock => "RowShareLock"@,
            LockMode::ShareLock => "ShareLock"@,
            LockMode::ShareRowExclusiveLock => "ShareRowExclusiveLock"@,
            LockMode::ShareUpdateExclusiveLock => "ShareUpdateExclusiveLock"@,
        }
    }

    /// A small number that stands for the mode where a map needs a key.
    pub open spec fn code(self) -> u8 {
        match self {
            LockMode::AccessExclusiveLock => 0,
            LockMode::AccessShareLock => 1,
            LockMode::ExclusiveLock => 2,
            LockMode::RowExclusiveLock => 3,
            LockMode::RowShareLock => 4,
            LockMode::ShareLock => 5,
            LockMode::ShareRowExclusiveLock => 6,
            LockMode::ShareUpdateExclusiveLock => 7,
        }
    }

    /// The modes that block a request for this mode: every mode `c` with
    /// `conflicts(self, c)`, each once.
    pub fn conflict_modes(&self) -> (modes: Vec<LockMode>)
        ensures
            forall|c: LockMode| #[trigger] modes@.contains(c) <==> conflicts(*self, c),
            modes@.no_duplicates(),
    {
        let modes = match self {
            LockMode::RowExclusiveLock => vec![
                LockMode::ExclusiveLock,
                LockMode::AccessExclusiveLock,
                LockMode::ShareLock,
                LockMode::ShareRowExclusiveLock,
            ],
            LockMode::RowShareLock => vec![LockMode::ExclusiveLock, LockMode::AccessExclusiveLock],
            LockMode::ShareLock => vec![
                LockMode::ExclusiveLock,
                LockMode::RowExclusiveLock,
                LockMode::AccessExclusiveLock,
                LockMode::ShareRowExclusiveLock,
                LockMode::ShareUpdateExclusiveLock,
            ],
            LockMode::ShareRowExclusiveLock => vec![
                LockMode::ExclusiveLock,
                LockMode::RowExclusiveLock,
                LockMode::ShareLock,
                LockMode::ShareUpdateExclusiveLock,
                LockMode::AccessExclusiveLock,
                LockMode::ShareRowExclusiveLock,
            ],
            LockMode::ExclusiveLock => vec![
                LockMode::RowShareLock,
                LockMode::ExclusiveLock,
                LockMode::RowExclusiveLock,
                LockMode::ShareLock,
                LockMode::ShareUpdateExclusiveLock,
                LockMode::AccessExclusiveLock,
                LockMode::ShareRowExclusiveLock,
            ],
            LockMode::AccessExclusiveLock => vec![
                LockMode::RowShareLock,
                LockMode::ExclusiveLock,
                LockMode::AccessShareLock,
                LockMode::RowExclusiveLock,
                LockMode::ShareRowExclusiveLock,
                LockMode::ShareLock,
                LockMode::AccessExclusiveLock,
                LockMode::ShareUpdateExclusiveLock,
            ],
            LockMode::AccessShareLock => vec![LockMode::AccessExclusiveLock],
            LockMode::ShareUpdateExclusiveLock => vec![
                LockMode::ExclusiveLock,
                LockMode::AccessExclusiveLock,
                LockMode::ShareLock,
                LockMode::ShareRowExclusiveLock,
                LockMode::ShareUpdateExclusiveLock,
            ],
        };
        proof {
            assert forall|c: LockMode| conflicts(*self, c) implies modes@.contains(c) by {
                assert(exists|i: int| 0 <= i < modes@.len() && modes@[i] == c) by {
                    if modes@.len() > 0 && modes@[0] == c {
                    } else if modes@.len() > 1 && modes@[1] == c {
                    } else if modes@.len() > 2 && modes@[2] == c {
                    } else if modes@.len() > 3 && modes@[3] == c {
                    } else if modes@.len() > 4 && modes@[4] == c {
                    } else if modes@.len() > 5 && modes@[5] == c {
                    } else if modes@.len() > 6 && modes@[6] == c {
                    } else if modes@.len() > 7 && modes@[7] == c {
                    }
                }
            }
        }
        modes
    }

    /// The number that stands for the mode in map keys.
    pub fn key(&self) -> (k: u8)
        ensures
            k == self.code(),
    {
        match self {
            LockMode::AccessExclusiveLock => 0,
            LockMode::AccessShareLock => 1,
            LockMode::ExclusiveLock => 2,
            LockMode::RowExclusiveLock => 3,
            LockMode::RowShareLock => 4,
            LockMode::ShareLock => 5,
            LockMode::ShareRowExclusiveLock => 6,
            LockMode::ShareUpdateExclusiveLock => 7,
        }
    }

    /// The name of the mode.
    pub fn as_str(&self) -> (s: &'static str)
        ensures
            s@ == self.name(),
    {
        match self {
            LockMode::AccessExclusiveLock => "AccessExclusiveLock",
            LockMode::AccessShareLock => "AccessShareLock",
            LockMode::ExclusiveLock => "ExclusiveLock",
            LockMode::RowExclusiveLock => "RowExclusiveLock",
            LockMode::RowShareLock => "RowShareLock",
            LockMode::ShareLock => "ShareLock",
            LockMode::ShareRowExclusiveLock => "ShareRowExclusiveLock",
            LockMode::ShareUpdateExclusiveLock => "ShareUpdateExclusiveLock",
        }
    }

    /// Reads a mode from its name: `Some` exactly for the eight names.
    pub fn parse(input: &str) -> (mode: Option<LockMode>)
        ensures
            mode == mode_named(input@),
            match mode {
                Some(m) => m.name() == input@,
                None => forall|m: LockMode| m.name() != input@,
            },
    {
        if str_eq(input, "AccessExclusiveLock") {
            Some(LockMode::AccessExclusiveLock)
        } else if str_eq(input, "AccessShareLock") {
            Some(LockMode::AccessShareLock)
        } else if str_eq(input, "ExclusiveLock") {
            Some(LockMode::ExclusiveLock)
        } else if str_eq(input, "RowExclusiveLock") {
            Some(LockMode::RowExclusiveLock)
        } else if str_eq(input, "RowShareLock") {
            Some(LockMode::RowShareLock)
        } else if str_eq(input, "ShareLock") {
            Some(LockMode::ShareLock)
        } else if str_eq(input, "ShareRowExclusiveLock") {
            Some(LockMode::ShareRowExclusiveLock)
        } else if str_eq(input, "ShareUpdateExclusiveLock") {
            Some(LockMode::ShareUpdateExclusiveLock)
        } else {
            None
        }
    }
}

/// Distinct modes have distinct names and distinct codes.
pub proof fn lemma_mode_names_distinct(a: LockMode, b: LockMode)
    ensures
        a.name() == b.name() ==> a == b,
        a.code() == b.code() ==> a == b,
{
    reveal_strlit("AccessExclusiveLock");
    reveal_strlit("AccessShareLock");
    reveal_strlit("ExclusiveLock");
    reveal_strlit("RowExclusiveLock");
    reveal_strlit("RowShareLock");
    reveal_strlit("ShareLock");
    reveal_strlit("ShareRowExclusiveLock");
    reveal_strlit("ShareUpdateExclusiveLock");
    if a.name() == b.name() {
        assert(a.name().len() == b.name().len());
        assert(a.name()[0] == b.name()[0]);
        assert(a.name()[5] == b.name()[5]);
    }
}

/// The identity of an interned lock target.
pub type LockObjId = usize;

/// The identity of a session.
pub type SessionId = i64;

/// What a lock is taken on.  Every attribute may be absent; two targets are
/// the same target when all their attributes agree.
#[derive(Debug, Clone, PartialEq, Eq, Hash)]
pub struct LockObj {
    pub locktype: Option<String>,
    pub gp_segment_id: Option<i64>,
    pub virtualxid: Option<String>,
    pub database: Option<i64>,
    pub relation: Option<i64>,
    pub page: Option<i64>,
    pub tuple: Option<i64>,
    pub transactionid: Option<i64>,
    pub classid: Option<i64>,
    pub objid: Option<i64>,
    pub objsubid: Option<i64>,
}

/// A lock target as a mathematical value.
pub ghost struct LockObjView {
    pub locktype: Option<Seq<char>>,
    pub gp_segment_id: Option<i64>,
    pub virtualxid: Option<Seq<char>>,
    pub database: Option<i64>,
    pub relation: Option<i64>,
    pub page: Option<i64>,
    pub tuple: Option<i64>,
    pub transactionid: Option<i64>,
    pub classid: Option<i64>,
    pub objid: Option<i64>,
    pub objsubid: Option<i64>,
}

impl LockObjView {
    /// The target none of whose attributes is known.
    pub open spec fn blank() -> LockObjView {
        LockObjView {
            locktype: None,
            gp_segment_id: None,
            virtualxid: None,
            database: None,
            relation: None,
            page: None,
            tuple: None,
            transactionid: None,
            classid: None,
            objid: None,
            objsubid: None,
        }
    }
}

/// The one item `name=value` where the attribute is known, else none.
pub open spec fn text_attr(name: Seq<char>, value: Option<Seq<char>>) -> Seq<Seq<char>> {
    match value {
        Some(t) => seq![name + "="@ + t],
        None => Seq::empty(),
    }
}

/// The one item `name=value`, the value in decimal, where the attribute is
/// known, else none.
pub open spec fn num_attr(name: Seq<char>, value: Option<i64>) -> Seq<Seq<char>> {
    match value {
        Some(n) => seq![name + "="@ + decimal(n as int)],
        None => Seq::empty(),
    }
}

impl LockObjView {
    /// The known attributes as `name=value`, in the order of the fields.
    pub open spec fn attributes(self) -> Seq<Seq<char>> {
        text_attr("locktype"@, self.locktype) + num_attr("gp_segment_id"@, self.gp_segment_id)
            + text_attr("virtualxid"@, self.virtualxid) + num_attr("database"@, self.database)
            + num_attr("relation"@, self.relation) + num_attr("page"@, self.page) + num_attr(
            "tuple"@,
            self.tuple,
        ) + num_attr("transactionid"@, self.transactionid) + num_attr("classid"@, self.classid)
            + num_attr("objid"@, self.objid) + num_attr("objsubid"@, self.objsubid)
    }

    /// The known attributes, joined by commas.
    pub open spec fn description(self) -> Seq<char> {
        join(self.attributes(), ","@)
    }
}

/// The characters of an optional string.
pub open spec fn opt_chars(s: Option<String>) -> Option<Seq<char>> {
    match s {
        Some(t) => Some(t@),
        None => None,
    }
}

impl View for LockObj {
    type V = LockObjView;

    open spec fn view(&self) -> LockObjView {
        LockObjView {
            locktype: opt_chars(self.locktype),
            gp_segment_id: self.gp_segment_id,
            virtualxid: opt_chars(self.virtualxid),
            database: self.database,
            relation: self.relation,
            page: self.page,
            tuple: self.tuple,
            transactionid: self.transactionid,
            classid: self.classid,
            objid: self.objid,
            objsubid: self.objsubid,
        }
    }
}

fn same_text(a: &Option<String>, b: &Option<String>) -> (same: bool)
    ensures
        same == (opt_chars(*a) == opt_chars(*b)),
{
    match (a, b) {
        (Some(x), Some(y)) => str_eq(x.as_str(), y.as_str()),
        (None, None) => true,
        _ => false,
    }
}

fn same_number(a: &Option<i64>, b: &Option<i64>) -> (same: bool)
    ensures
        same == (*a == *b),
{
    match (a, b) {
        (Some(x), Some(y)) => *x == *y,
        (None, None) => true,
        _ => false,
    }
}

impl Default for LockObj {
    fn default() -> (obj: LockObj)
        ensures
            obj@ == LockObjView::blank(),
    {
        LockObj {
            locktype: None,
            gp_segment_id: None,
            virtualxid: None,
            database: None,
            relation: None,
            page: None,
            tuple: None,
            transactionid: None,
            classid: None,
            objid: None,
            objsubid: None,
        }
    }
}

fn put_attr(out: &mut String, started: bool, item: &str, Ghost(items): Ghost<Seq<Seq<char>>>)
    requires
        old(out)@ == join(items, ","@),
        started == (items.len() > 0),
    ensures
        final(out)@ == join(items + seq![item@], ","@),
{
    proof {
        lemma_join_push(items, ","@, item@);
        assert(items + seq![item@] =~= items.push(item@));
    }
    push_item(out, started, ",", item);
    assert(Seq::<char>::empty() + item@ =~= item@);
}

fn put_text(
    out: &mut String,
    started: bool,
    name: &str,
    value: &Option<String>,
    Ghost(items): Ghost<Seq<Seq<char>>>,
) -> (now: bool)
    requires
        old(out)@ == join(items, ","@),
        started == (items.len() > 0),
    ensures
        final(out)@ == join(items + text_attr(name@, opt_chars(*value)), ","@),
        now == ((items + text_attr(name@, opt_chars(*value))).len() > 0),
{
    match value {
        Some(t) => {
            let mut item = String::from_str(name);
            item.append("=");
            item.append(t.as_str());
            put_attr(out, started, item.as_str(), Ghost(items));
            true
        },
        None => {
            assert(items + Seq::<Seq<char>>::empty() =~= items);
            started
        },
    }
}

fn put_num(
    out: &mut String,
    started: bool,
    name: &str,
    value: &Option<i64>,
    Ghost(items): Ghost<Seq<Seq<char>>>,
) -> (now: bool)
    requires
        old(out)@ == join(items, ","@),
        started == (items.len() > 0),
    ensures
        final(out)@ == join(items + num_attr(name@, *value), ","@),
        now == ((items + num_attr(name@, *value)).len() > 0),
{
    match value {
        Some(n) => {
            let mut item = String::from_str(name);
            item.append("=");
            push_i64(&mut item, *n);
            put_attr(out, started, item.as_str(), Ghost(items));
            true
        },
        None => {
            assert(items + Seq::<Seq<char>>::empty() =~= items);
            started
        },
    }
}

impl LockObj {
    /// The known attributes as `name=value`, joined by commas; unknown
    /// attributes are left out.
    pub fn describe(&self) -> (s: String)
        ensures
            s@ == self@.description(),
    {
        let mut out = String::new();
        let ghost v = self@;
        let ghost i0 = Seq::<Seq<char>>::empty();
        let ghost i1 = i0 + text_attr("locktype"@, v.locktype);
        let ghost i2 = i1 + num_attr("gp_segment_id"@, v.gp_segment_id);
        let ghost i3 = i2 + text_attr("virtualxid"@, v.virtualxid);
        let ghost i4 = i3 + num_attr("database"@, v.database);
        let ghost i5 = i4 + num_attr("relation"@, v.relation);
        let ghost i6 = i5 + num_attr("page"@, v.page);
        let ghost i7 = i6 + num_attr("tuple"@, v.tuple);
        let ghost i8 = i7 + num_attr("transactionid"@, v.transactionid);
        let ghost i9 = i8 + num_attr("classid"@, v.classid);
        let ghost i10 = i9 + num_attr("objid"@, v.objid);
        let started = put_text(&mut out, false, "locktype", &self.locktype, Ghost(i0));
        let started = put_num(&mut out, started, "gp_segment_id", &self.gp_segment_id, Ghost(i1));
        let started = put_text(&mut out, started, "virtualxid", &self.virtualxid, Ghost(i2));
        let started = put_num(&mut out, started, "database", &self.database, Ghost(i3));
        let started = put_num(&mut out, started, "relation", &self.relation, Ghost(i4));
        let started = put_num(&mut out, started, "page", &self.page, Ghost(i5));
        let started = put_num(&mut out, started, "tuple", &self.tuple, Ghost(i6));
        let started = put_num(&mut out, started, "transactionid", &self.transactionid, Ghost(i7));
        let started = put_num(&mut out, started, "classid", &self.classid, Ghost(i8));
        let started = put_num(&mut out, started, "objid", &self.objid, Ghost(i9));
        let _ = put_num(&mut out, started, "objsubid", &self.objsubid, Ghost(i10));
        proof {
            assert(i1 =~= text_attr("locktype"@, v.locktype));
        }
        out
    }
}

impl StructEq for LockObj {
    fn same(&self, other: &LockObj) -> (b: bool) {
        same_text(&self.locktype, &other.locktype) && same_number(
            &self.gp_segment_id,
            &other.gp_segment_id,
        ) && same_text(&self.virtualxid, &other.virtualxid) && same_number(
            &self.database,
            &other.database,
        ) && same_number(&self.relation, &other.relation) && same_number(&self.page, &other.page)
            && same_number(&self.tuple, &other.tuple) && same_number(
            &self.transactionid,
            &other.transactionid,
        ) && same_number(&self.classid, &other.classid) && same_number(&self.objid, &other.objid)
            && same_number(&self.objsubid, &other.objsubid)
    }
}

/// A requested lock: a mode on a target.
#[derive(Debug, Clone, Copy, PartialEq, Eq, Structural)]
pub struct Lock {
    pub objid: LockObjId,
    pub mode: LockMode,
}

/// The locks of one snapshot as a mathematical value.
pub ghost struct LockInfoView {
    /// The targets, each at the index that is its identity.
    pub objs: Seq<LockObjView>,
    /// The sessions that hold a mode on a target; only pairs with a holder
    /// have an entry.
    pub granted: Map<(LockObjId, LockMode), Set<SessionId>>,
    /// The requests of each waiting session, in the order they were recorded.
    pub waiting: Map<SessionId, Seq<Lock>>,
}

impl LockInfoView {
    /// The snapshot without any lock.
    pub open spec fn empty() -> LockInfoView {
        LockInfoView { objs: Seq::empty(), granted: Map::empty(), waiting: Map::empty() }
    }

    /// Session `sess` holds `mode` on `obj`.
    pub open spec fn holds(self, obj: LockObjId, mode: LockMode, sess: SessionId) -> bool {
        self.granted.contains_key((obj, mode)) && self.granted[(obj, mode)].contains(sess)
    }

    /// Session `sess` waits for `mode` on `obj`.
    pub open spec fn waits(self, sess: SessionId, obj: LockObjId, mode: LockMode) -> bool {
        self.waiting.contains_key(sess) && self.waiting[sess].contains(Lock { objid: obj, mode })
    }

    /// The holders of `mode` on `obj`; empty where nobody holds it.
    pub open spec fn holders(self, obj: LockObjId, mode: LockMode) -> Set<SessionId> {
        if self.granted.contains_key((obj, mode)) {
            self.granted[(obj, mode)]
        } else {
            Set::empty()
        }
    }

    /// The snapshot after `sess` was recorded as a holder of `mode` on `obj`.
    pub open spec fn with_granted(self, obj: LockObjId, mode: LockMode, sess: SessionId)
        -> LockInfoView {
        LockInfoView {
            granted: self.granted.insert((obj, mode), self.holders(obj, mode).insert(sess)),
            ..self
        }
    }

    /// The snapshot after `sess` was recorded as waiting for `mode` on `obj`.
    pub open spec fn with_waiting(self, obj: LockObjId, mode: LockMode, sess: SessionId)
        -> LockInfoView {
        let so_far = if self.waiting.contains_key(sess) {
            self.waiting[sess]
        } else {
            Seq::empty()
        };
        LockInfoView {
            waiting: self.waiting.insert(sess, so_far.push(Lock { objid: obj, mode })),
            ..self
        }
    }

    /// Every lock is on a known target, every entry of `granted` has a
    /// holder, and no target occurs twice.
    pub open spec fn wf(self) -> bool {
        &&& self.objs.no_duplicates()
        &&& forall|k: (LockObjId, LockMode)| #[trigger]
            self.granted.contains_key(k) ==> k.0 < self.objs.len() && self.granted[k].finite()
                && self.granted[k].len() > 0
        &&& forall|s: SessionId, i: int|
            self.waiting.contains_key(s) && 0 <= i < self.waiting[s].len() ==> (
            #[trigger] self.waiting[s][i]).objid < self.objs.len()
    }
}

/// The catalog of one snapshot: the interned targets, who holds what, and
/// who waits for what.
pub struct LockInfo {
    objs: Internment<LockObj>,
    granted_table: HashMap<LockObjId, HashMap<u8, HashSet<SessionId>>>,
    waiter: HashMap<SessionId, Vec<Lock>>,
}

impl View for LockInfo {
    type V = LockInfoView;

    closed spec fn view(&self) -> LockInfoView {
        LockInfoView {
            objs: self.objs@,
            granted: Map::new(
                |k: (LockObjId, LockMode)|
                    self.granted_table@.contains_key(k.0) && self.granted_table@[k.0]@.contains_key(
                        k.1.code(),
                    ),
                |k: (LockObjId, LockMode)| self.granted_table@[k.0]@[k.1.code()]@,
            ),
            waiting: Map::new(
                |s: SessionId| self.waiter@.contains_key(s),
                |s: SessionId| self.waiter@[s]@,
            ),
        }
    }
}

impl Default for LockInfo {
    /// The catalog of the empty snapshot.
    fn default() -> (info: LockInfo)
        ensures
            info.wf(),
            info@ == LockInfoView::empty(),
    {
        LockInfo::new()
    }
}

impl LockInfo {
    /// The representation is sound: the view is well formed and the inner
    /// maps are keyed by mode codes only.
    pub closed spec fn wf(&self) -> bool {
        &&& self@.wf()
        &&& self.objs.wf()
        &&& forall|o: LockObjId, c: u8|
            self.granted_table@.contains_key(o) && #[trigger] self.granted_table@[o]@.contains_key(
                c,
            ) ==> c < 8
    }

    /// A well-formed catalog has a well-formed view.
    pub proof fn lemma_wf_view(&self)
        requires
            self.wf(),
        ensures
            self@.wf(),
    {
    }

    /// The catalog of the empty snapshot.
    pub fn new() -> (info: LockInfo)
        ensures
            info.wf(),
            info@ == LockInfoView::empty(),
    {
        let info = LockInfo {
            objs: Internment::new(),
            granted_table: HashMap::new(),
            waiter: HashMap::new(),
        };
        proof {
            assert(info@.granted =~= Map::empty());
            assert(info@.waiting =~= Map::empty());
        }
        info
    }

    /// The target behind an identity.
    pub fn get_obj(&self, objid: LockObjId) -> (obj: &LockObj)
        requires
            objid < self@.objs.len(),
        ensures
            obj@ == self@.objs[objid as int],
    {
        self.objs.get(objid)
    }

    /// Interns a target: the identity of the equal target seen before, or a
    /// fresh one.
    pub fn get_objid(&mut self, lockobj: LockObj) -> (objid: LockObjId)
        requires
            old(self).wf(),
        ensures
            final(self).wf(),
            (final(self)@.objs, objid as int) == crate::intern::interned(old(self)@.objs, lockobj@),
            objid < final(self)@.objs.len(),
            final(self)@.objs[objid as int] == lockobj@,
            final(self)@.granted == old(self)@.granted,
            final(self)@.waiting == old(self)@.waiting,
    {
        let objid = self.objs.intern(lockobj);
        proof {
            assert(self@.granted =~= old(self)@.granted);
            assert(self@.waiting =~= old(self)@.waiting);
        }
        objid
    }

    /// Records that `sessid` waits for `mode` on `objid`.
    pub fn add_waiter(&mut self, objid: LockObjId, mode: LockMode, sessid: SessionId)
        requires
            old(self).wf(),
            objid < old(self)@.objs.len(),
        ensures
            final(self).wf(),
            final(self)@ == old(self)@.with_waiting(objid, mode, sessid),
    {
        broadcast use group_hash_axioms;

        let slot = get_or_default_ex(&mut self.waiter, sessid, Vec::new());
        slot.push(Lock { objid, mode });
        proof {
            let want = old(self)@.with_waiting(objid, mode, sessid);
            assert(self@.waiting =~= want.waiting);
            assert(self@.granted =~= want.granted);
            assert forall|s: SessionId, i: int|
                self@.waiting.contains_key(s) && 0 <= i < self@.waiting[s].len() implies (
            #[trigger] self@.waiting[s][i]).objid < self@.objs.len() by {
                if s == sessid && i < self@.waiting[s].len() - 1 && old(self)@.waiting.contains_key(s) {
                    assert(self@.waiting[s][i] == old(self)@.waiting[s][i]);
                } else if s != sessid {
                    assert(self@.waiting[s][i] == old(self)@.waiting[s][i]);
                }
            }
        }
    }

    /// Records that `sessid` holds `mode` on `objid`.
    pub fn add_granted(&mut self, objid: LockObjId, mode: LockMode, sessid: SessionId)
        requires
            old(self).wf(),
            objid < old(self)@.objs.len(),
        ensures
            final(self).wf(),
            final(self)@ == old(self)@.with_granted(objid, mode, sessid),
    {
        broadcast use group_hash_axioms;

        let by_mode = get_or_default_ex(&mut self.granted_table, objid, HashMap::new());
        let holders = get_or_default_ex(by_mode, mode.key(), HashSet::new());
        holders.insert(sessid);
        proof {
            let want = old(self)@.with_granted(objid, mode, sessid);
            assert forall|k: (LockObjId, LockMode)| self@.granted.contains_key(k)
                <==> want.granted.contains_key(k) by {
                lemma_mode_names_distinct(k.1, mode);
            }
            assert forall|k: (LockObjId, LockMode)| self@.granted.contains_key(k)
                implies self@.granted[k] == want.granted[k] by {
                lemma_mode_names_distinct(k.1, mode);
            }
            assert(self@.granted =~= want.granted);
            assert(self@.waiting =~= want.waiting);
        }
    }

    /// The sessions that hold exactly `lockmode` on `objid`; `None` where
    /// nobody does.
    pub fn get_holders(&self, lockmode: LockMode, objid: LockObjId) -> (holders: Option<
        &HashSet<SessionId>,
    >)
        requires
            self.wf(),
        ensures
            match holders {
                Some(set) => self@.granted.contains_key((objid, lockmode)) && set@
                    == self@.granted[(objid, lockmode)] && set@.len() > 0,
                None => !self@.granted.contains_key((objid, lockmode)),
            },
            holders is Some <==> exists|s: SessionId| self@.holds(objid, lockmode, s),
    {
        broadcast use group_hash_axioms;

        let found = match self.granted_table.get(&objid) {
            Some(by_mode) => by_mode.get(&lockmode.key()),
            None => None,
        };
        proof {
            if self@.granted.contains_key((objid, lockmode)) {
                let set = self@.granted[(objid, lockmode)];
                assert(set.len() > 0);
                let s = set.choose();
                assert(set.contains(s));
                assert(self@.holds(objid, lockmode, s));
            }
        }
        found
    }

    /// The waiting sessions with their requests.
    pub fn waiters(&self) -> (map: &HashMap<SessionId, Vec<Lock>>)
        ensures
            map@.dom() == self@.waiting.dom(),
            forall|s: SessionId| map@.contains_key(s) ==> (#[trigger] map@[s])@ == self@.waiting[s],
    {
        proof {
            assert(self.waiter@.dom() =~= self@.waiting.dom());
        }
        &self.waiter
    }
}

/// One row of the lock listing as the database sends it: every value as
/// text, absent where the database has none.
#[derive(Debug, Clone, PartialEq, Eq)]
pub struct LockRow {
    pub locktype: Option<String>,
    pub gp_segment_id: Option<String>,
    pub virtualxid: Option<String>,
    pub database: Option<String>,
    pub relation: Option<String>,
    pub page: Option<String>,
    pub tuple: Option<String>,
    pub transactionid: Option<String>,
    pub classid: Option<String>,
    pub objid: Option<String>,
    pub objsubid: Option<String>,
    pub mode: Option<String>,
    pub mppsessionid: Option<String>,
    pub granted: Option<String>,
}

/// A row as a mathematical value.
pub ghost struct LockRowView {
    pub locktype: Option<Seq<char>>,
    pub gp_segment_id: Option<Seq<char>>,
    pub virtualxid: Option<Seq<char>>,
    pub database: Option<Seq<char>>,
    pub relation: Option<Seq<char>>,
    pub page: Option<Seq<char>>,
    pub tuple: Option<Seq<char>>,
    pub transactionid: Option<Seq<char>>,
    pub classid: Option<Seq<char>>,
    pub objid: Option<Seq<char>>,
    pub objsubid: Option<Seq<char>>,
    pub mode: Option<Seq<char>>,
    pub mppsessionid: Option<Seq<char>>,
    pub granted: Option<Seq<char>>,
}

impl View for LockRow {
    type V = LockRowView;

    open spec fn view(&self) -> LockRowView {
        LockRowView {
            locktype: opt_chars(self.locktype),
            gp_segment_id: opt_chars(self.gp_segment_id),
            virtualxid: opt_chars(self.virtualxid),
            database: opt_chars(self.database),
            relation: opt_chars(self.relation),
            page: opt_chars(self.page),
            tuple: opt_chars(self.tuple),
            transactionid: opt_chars(self.transactionid),
            classid: opt_chars(self.classid),
            objid: opt_chars(self.objid),
            objsubid: opt_chars(self.objsubid),
            mode: opt_chars(self.mode),
            mppsessionid: opt_chars(self.mppsessionid),
            granted: opt_chars(self.granted),
        }
    }
}

/// Why a row cannot be read.
#[derive(Debug, Clone, Copy, PartialEq, Eq, Structural)]
pub enum RowError {
    /// An attribute of the target that should be a number is none.
    BadNumber,
    /// The mode, the session or the granted flag is absent.
    MissingValue,
    /// The mode is none of the eight names.
    UnknownLockMode,
    /// The session is no number.
    BadSession,
    /// The granted flag is neither `true` nor `false`.
    BadFlag,
}

/// What a row says: a lock on `obj` in `mode`, held by `sessid` where
/// `granted`, else awaited by it.
pub ghost struct RowFacts {
    pub obj: LockObjView,
    pub mode: LockMode,
    pub sessid: SessionId,
    pub granted: bool,
}

/// A numeric attribute is well written where it is absent or a number.
pub open spec fn num_ok(value: Option<Seq<char>>) -> bool {
    value matches Some(t) ==> parse_i64_spec(t) is Some
}

/// The number of a well-written numeric attribute.
pub open spec fn num_of(value: Option<Seq<char>>) -> Option<i64> {
    match value {
        Some(t) => parse_i64_spec(t),
        None => None,
    }
}

/// The granted flag that a text writes.
pub open spec fn flag_named(t: Seq<char>) -> Option<bool> {
    if t == "true"@ {
        Some(true)
    } else if t == "false"@ {
        Some(false)
    } else {
        None
    }
}

impl LockRowView {
    /// All numeric attributes of the target are well written.
    pub open spec fn numbers_ok(self) -> bool {
        &&& num_ok(self.gp_segment_id)
        &&& num_ok(self.database)
        &&& num_ok(self.relation)
        &&& num_ok(self.page)
        &&& num_ok(self.tuple)
        &&& num_ok(self.transactionid)
        &&& num_ok(self.classid)
        &&& num_ok(self.objid)
        &&& num_ok(self.objsubid)
    }

    /// The target that the row names.
    pub open spec fn target(self) -> LockObjView {
        LockObjView {
            locktype: self.locktype,
            gp_segment_id: num_of(self.gp_segment_id),
            virtualxid: self.virtualxid,
            database: num_of(self.database),
            relation: num_of(self.relation),
            page: num_of(self.page),
            tuple: num_of(self.tuple),
            transactionid: num_of(self.transactionid),
            classid: num_of(self.classid),
            objid: num_of(self.objid),
            objsubid: num_of(self.objsubid),
        }
    }

    /// What the row says, or the first thing that is wrong with it: the
    /// target is read first, then the mode, the session and the flag.
    pub open spec fn facts(self) -> Result<RowFacts, RowError> {
        if !self.numbers_ok() {
            Err(RowError::BadNumber)
        } else if self.mode is None {
            Err(RowError::MissingValue)
        } else if mode_named(self.mode->0) is None {
            Err(RowError::UnknownLockMode)
        } else if self.mppsessionid is None {
            Err(RowError::MissingValue)
        } else if parse_i64_spec(self.mppsessionid->0) is None {
            Err(RowError::BadSession)
        } else if self.granted is None {
            Err(RowError::MissingValue)
        } else if flag_named(self.granted->0) is None {
            Err(RowError::BadFlag)
        } else {
            Ok(
                RowFacts {
                    obj: self.target(),
                    mode: mode_named(self.mode->0)->0,
                    sessid: parse_i64_spec(self.mppsessionid->0)->0,
                    granted: flag_named(self.granted->0)->0,
                },
            )
        }
    }
}

impl LockInfoView {
    /// The snapshot after one more row: its target is interned, and the
    /// session is recorded as a holder or as waiting.
    pub open spec fn with_row(self, row: RowFacts) -> LockInfoView {
        let (objs, id) = interned(self.objs, row.obj);
        let known = LockInfoView { objs, ..self };
        if row.granted {
            known.with_granted(id as usize, row.mode, row.sessid)
        } else {
            known.with_waiting(id as usize, row.mode, row.sessid)
        }
    }
}

/// The snapshot that a listing gives, or what is wrong with its first bad
/// row.
pub open spec fn loaded(rows: Seq<LockRowView>) -> Result<LockInfoView, RowError>
    decreases rows.len(),
{
    if rows.len() == 0 {
        Ok(LockInfoView::empty())
    } else {
        match loaded(rows.drop_last()) {
            Err(e) => Err(e),
            Ok(info) => match rows.last().facts() {
                Err(e) => Err(e),
                Ok(row) => Ok(info.with_row(row)),
            },
        }
    }
}

/// The views of the rows.
pub open spec fn row_views(rows: Seq<LockRow>) -> Seq<LockRowView> {
    Seq::new(rows.len(), |i: int| rows[i]@)
}

/// A listing with a bad row stays bad however it goes on.
pub proof fn lemma_loaded_error(rows: Seq<LockRowView>, k: int)
    requires
        0 <= k <= rows.len(),
        loaded(rows.subrange(0, k)) is Err,
    ensures
        loaded(rows) == loaded(rows.subrange(0, k)),
    decreases rows.len() - k,
{
    if k == rows.len() {
        assert(rows.subrange(0, k) =~= rows);
    } else {
        assert(rows.subrange(0, k + 1).drop_last() =~= rows.subrange(0, k));
        lemma_loaded_error(rows, k + 1);
    }
}

fn copy_text(value: &Option<String>) -> (copy: Option<String>)
    ensures
        opt_chars(copy) == opt_chars(*value),
{
    match value {
        Some(t) => Some(t.clone()),
        None => None,
    }
}

fn read_number(value: &Option<String>) -> (r: Result<Option<i64>, RowError>)
    ensures
        match r {
            Ok(n) => num_ok(opt_chars(*value)) && n == num_of(opt_chars(*value)),
            Err(e) => !num_ok(opt_chars(*value)) && e == RowError::BadNumber,
        },
{
    match value {
        None => Ok(None),
        Some(t) => {
            let chars = chars_of(t.as_str());
            match parse_i64(&chars) {
                Some(n) => Ok(Some(n)),
                None => Err(RowError::BadNumber),
            }
        },
    }
}

fn read_flag(t: &str) -> (flag: Option<bool>)
    ensures
        flag == flag_named(t@),
{
    if str_eq(t, "true") {
        Some(true)
    } else if str_eq(t, "false") {
        Some(false)
    } else {
        None
    }
}

/// The text of the query that lists the locks.  Up to major version 4 the
/// database has no `virtualxid` column.
pub open spec fn lock_query_text(major: u64) -> Seq<char> {
    if major <= 4 {
        "select null as virtualxid,gp_segment_id,locktype,database,relation,page,tuple,transactionid,classid,objid,objsubid,mode,case when granted = 't' then 'true' else 'false' end as granted,mppsessionid from pg_locks"@
    } else {
        "select virtualxid,gp_segment_id,locktype,database,relation,page,tuple,transactionid,classid,objid,objsubid,mode,case when granted = 't' then 'true' else 'false' end as granted,mppsessionid from pg_locks"@
    }
}

/// The query that lists the locks of a database of the given major version.
pub fn lock_query(major: u64) -> (query: &'static str)
    ensures
        query@ == lock_query_text(major),
{
    if major <= 4 {
        "select null as virtualxid,gp_segment_id,locktype,database,relation,page,tuple,transactionid,classid,objid,objsubid,mode,case when granted = 't' then 'true' else 'false' end as granted,mppsessionid from pg_locks"
    } else {
        "select virtualxid,gp_segment_id,locktype,database,relation,page,tuple,transactionid,classid,objid,objsubid,mode,case when granted = 't' then 'true' else 'false' end as granted,mppsessionid from pg_locks"
    }
}

impl LockInfo {
    /// Reads one row: the target, the mode, the session and whether the
    /// lock is granted.
    pub fn getlock(row: &LockRow) -> (r: Result<(LockObj, LockMode, SessionId, bool), RowError>)
        ensures
            match r {
                Ok((obj, mode, sessid, granted)) => row@.facts() == Ok::<RowFacts, RowError>(
                    RowFacts { obj: obj@, mode, sessid, granted },
                ),
                Err(e) => row@.facts() == Err::<RowFacts, RowError>(e),
            },
    {
        let gp_segment_id = match read_number(&row.gp_segment_id) {
            Ok(n) => n,
            Err(e) => return Err(e),
        };
        let database = match read_number(&row.database) {
            Ok(n) => n,
            Err(e) => return Err(e),
        };
        let relation = match read_number(&row.relation) {
            Ok(n) => n,
            Err(e) => return Err(e),
        };
        let page = match read_number(&row.page) {
            Ok(n) => n,
            Err(e) => return Err(e),
        };
        let tuple = match read_number(&row.tuple) {
            Ok(n) => n,
            Err(e) => return Err(e),
        };
        let transactionid = match read_number(&row.transactionid) {
            Ok(n) => n,
            Err(e) => return Err(e),
        };
        let classid = match read_number(&row.classid) {
            Ok(n) => n,
            Err(e) => return Err(e),
        };
        let objid = match read_number(&row.objid) {
            Ok(n) => n,
            Err(e) => return Err(e),
        };
        let objsubid = match read_number(&row.objsubid) {
            Ok(n) => n,
            Err(e) => return Err(e),
        };
        let obj = LockObj {
            locktype: copy_text(&row.locktype),
            gp_segment_id,
            virtualxid: copy_text(&row.virtualxid),
            database,
            relation,
            page,
            tuple,
            transactionid,
            classid,
            objid,
            objsubid,
        };
        let mode = match &row.mode {
            None => return Err(RowError::MissingValue),
            Some(t) => match LockMode::parse(t.as_str()) {
                None => return Err(RowError::UnknownLockMode),
                Some(m) => m,
            },
        };
        let sessid = match &row.mppsessionid {
            None => return Err(RowError::MissingValue),
            Some(t) => {
                let chars = chars_of(t.as_str());
                match parse_i64(&chars) {
                    None => return Err(RowError::BadSession),
                    Some(n) => n,
                }
            },
        };
        let granted = match &row.granted {
            None => return Err(RowError::MissingValue),
            Some(t) => match read_flag(t.as_str()) {
                None => return Err(RowError::BadFlag),
                Some(b) => b,
            },
        };
        assert(obj@ == row@.target());
        Ok((obj, mode, sessid, granted))
    }

    /// Records one row; a row that cannot be read leaves the catalog as it
    /// is.
    pub fn process_row(&mut self, row: &LockRow) -> (r: Result<(), RowError>)
        requires
            old(self).wf(),
        ensures
            final(self).wf(),
            match row@.facts() {
                Ok(facts) => r is Ok && final(self)@ == old(self)@.with_row(facts),
                Err(e) => r == Err::<(), RowError>(e) && final(self)@ == old(self)@,
            },
    {
        match LockInfo::getlock(row) {
            Err(e) => Err(e),
            Ok((lockobj, mode, sessid, granted)) => {
                let objid = self.get_objid(lockobj);
                if !granted {
                    self.add_waiter(objid, mode, sessid);
                } else {
                    self.add_granted(objid, mode, sessid);
                }
                Ok(())
            },
        }
    }

    /// The catalog of a listing; the first row that cannot be read fails
    /// the whole listing.
    pub fn process(rows: &Vec<LockRow>) -> (r: Result<LockInfo, RowError>)
        ensures
            match r {
                Ok(info) => info.wf() && loaded(row_views(rows@)) == Ok::<LockInfoView, RowError>(
                    info@,
                ),
                Err(e) => loaded(row_views(rows@)) == Err::<LockInfoView, RowError>(e),
            },
    {
        let mut lockinfo = LockInfo::new();
        let ghost all = row_views(rows@);
        let mut i: usize = 0;
        assert(all.subrange(0, 0) =~= Seq::<LockRowView>::empty());
        while i < rows.len()
            invariant
                i <= rows@.len(),
                all == row_views(rows@),
                lockinfo.wf(),
                loaded(all.subrange(0, i as int)) == Ok::<LockInfoView, RowError>(lockinfo@),
            decreases rows@.len() - i,
        {
            proof {
                assert(all.subrange(0, i + 1).drop_last() =~= all.subrange(0, i as int));
                assert(all.subrange(0, i + 1).last() == rows@[i as int]@);
            }
            match lockinfo.process_row(&rows[i]) {
                Ok(_) => {},
                Err(e) => {
                    proof {
                        lemma_loaded_error(all, i + 1);
                    }
                    return Err(e);
                },
            }
            i += 1;
        }
        assert(all.subrange(0, i as int) =~= all);
        Ok(lockinfo)
    }
}

} // verus!
