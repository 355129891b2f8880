//! One connection's dialog: creating a database, selecting one (with the
//! credential challenge and its attempt budget), and handing commands on.

use vstd::prelude::*;
use vstd::string::*;

use crate::db::{credentials_match, DbInstance, DbModel};
use crate::parser::{after, command_of, error_text, reply_of};
use crate::registry::Registry;
use crate::text::{chars_of, copy_range, find_ws, find_ws_from, skip_ws, skip_ws_from, substring, trim, trim_bounds};

verus! {

/// Wrong credential answers allowed in a row before the session is closed.
pub const MAX_AUTH_ATTEMPTS: u8 = 3;

/// Where a session stands, as the contracts see it.
pub enum Phase {
    Unbound,
    CreateAskAuth { name: Seq<char> },
    CreateAskUser { name: Seq<char> },
    CreateAskPass { name: Seq<char>, username: Seq<char> },
    AuthAskUser { name: Seq<char>, failures: nat },
    AuthAskPass { name: Seq<char>, username: Seq<char>, failures: nat },
    Bound { name: Seq<char> },
    Closed,
}

/// Where a session stands: no database yet, inside the dialog that creates
/// one or that checks credentials for one, bound to one, or closed.
pub enum SessionState {
    Unbound,
    CreateAskAuth { name: String },
    CreateAskUser { name: String },
    CreateAskPass { name: String, username: String },
    AuthAskUser { name: String, failures: u8 },
    AuthAskPass { name: String, username: String, failures: u8 },
    Bound { name: String },
    Closed,
}

impl View for SessionState {
    type V = Phase;

    open spec fn view(&self) -> Phase {
        match self {
            SessionState::Unbound => Phase::Unbound,
            SessionState::CreateAskAuth { name } => Phase::CreateAskAuth { name: name@ },
            SessionState::CreateAskUser { name } => Phase::CreateAskUser { name: name@ },
            SessionState::CreateAskPass { name, username } => Phase::CreateAskPass {
                name: name@,
                username: username@,
            },
            SessionState::AuthAskUser { name, failures } => Phase::AuthAskUser {
                name: name@,
                failures: *failures as nat,
            },
            SessionState::AuthAskPass { name, username, failures } => Phase::AuthAskPass {
                name: name@,
                username: username@,
                failures: *failures as nat,
            },
            SessionState::Bound { name } => Phase::Bound { name: name@ },
            SessionState::Closed => Phase::Closed,
        }
    }
}

/// The attempt counter stays under the budget.
pub open spec fn phase_wf(p: Phase) -> bool {
    match p {
        Phase::AuthAskUser { failures, .. } => failures < MAX_AUTH_ATTEMPTS,
        Phase::AuthAskPass { failures, .. } => failures < MAX_AUTH_ATTEMPTS,
        _ => true,
    }
}

/// What one line does, as the contracts see it: the next phase, the
/// registry after it, the reply (empty: none) and whether the connection
/// closes.
pub struct StepModel {
    pub phase: Phase,
    pub dbs: Map<Seq<char>, DbModel>,
    pub text: Seq<char>,
    pub close: bool,
}

/// The reply to one line, and whether the connection closes after it.
pub struct Reply {
    pub text: String,
    pub close: bool,
}

/// The first word of `t`.
pub open spec fn head_word(t: Seq<char>) -> Seq<char> {
    t.subrange(0, find_ws(t, 0))
}

/// What follows the first word of `t` and the blanks after it.
pub open spec fn tail_words(t: Seq<char>) -> Seq<char> {
    t.subrange(skip_ws(t, find_ws(t, 0)), t.len() as int)
}

/// A non-empty run of non-blank characters.
pub open spec fn is_word(s: Seq<char>) -> bool {
    s.len() > 0 && find_ws(s, 0) == s.len()
}

/// `create <name>` gives `Some((true, name))`, `use <name>` gives
/// `Some((false, name))`; any other line gives `None`.
pub open spec fn dialog_command(line: Seq<char>) -> Option<(bool, Seq<char>)> {
    let t = trim(line);
    if is_word(tail_words(t)) && head_word(t) == "create"@ {
        Some((true, tail_words(t)))
    } else if is_word(tail_words(t)) && head_word(t) == "use"@ {
        Some((false, tail_words(t)))
    } else {
        None
    }
}

pub open spec fn is_yes_char(c: char, lower: char, upper: char) -> bool {
    c == lower || c == upper
}

/// `yes`, in any mix of case.
pub open spec fn is_yes(t: Seq<char>) -> bool {
    t.len() == 3 && is_yes_char(t[0], 'y', 'Y') && is_yes_char(t[1], 'e', 'E') && is_yes_char(t[2], 's', 'S')
}

pub open spec fn framed(prefix: Seq<char>, name: Seq<char>, suffix: Seq<char>) -> Seq<char> {
    prefix + name + suffix
}

/// The registry after database `name` was created, if that name was free,
/// with the reply that says so.
pub open spec fn create_outcome(dbs: Map<Seq<char>, DbModel>, name: Seq<char>, db: DbModel) -> StepModel {
    if dbs.contains_key(name) {
        StepModel {
            phase: Phase::Unbound,
            dbs,
            text: framed("Database '"@, name, "' already exists"@),
            close: false,
        }
    } else {
        StepModel {
            phase: Phase::Unbound,
            dbs: dbs.insert(name, db),
            text: "Database created successfully"@,
            close: false,
        }
    }
}

pub open spec fn empty_db(require_auth: bool, username: Option<Seq<char>>, password: Option<Seq<char>>) -> DbModel {
    DbModel { data: Map::empty(), require_auth, username, password }
}

/// A command line run against the store of database `name`.
pub open spec fn command_outcome(dbs: Map<Seq<char>, DbModel>, name: Seq<char>, line: Seq<char>, now: u64) -> StepModel {
    if !dbs.contains_key(name) {
        StepModel { phase: Phase::Bound { name }, dbs, text: "No database selected"@, close: false }
    } else {
        match command_of(line) {
            Ok(c) => StepModel {
                phase: Phase::Bound { name },
                dbs: dbs.insert(name, DbModel { data: after(c, dbs[name].data, now), ..dbs[name] }),
                text: reply_of(c, dbs[name].data, now),
                close: false,
            },
            Err(e) => StepModel { phase: Phase::Bound { name }, dbs, text: error_text(e), close: false },
        }
    }
}

/// What line `line` does at `now` to a session in phase `p` over a registry
/// of model `dbs`.
pub open spec fn step(p: Phase, dbs: Map<Seq<char>, DbModel>, line: Seq<char>, now: u64) -> StepModel {
    let t = trim(line);
    match p {
        Phase::Closed => StepModel { phase: Phase::Closed, dbs, text: Seq::empty(), close: true },
        Phase::CreateAskAuth { name } => if is_yes(t) {
            StepModel { phase: Phase::CreateAskUser { name }, dbs, text: "Enter username:"@, close: false }
        } else {
            create_outcome(dbs, name, empty_db(false, None, None))
        },
        Phase::CreateAskUser { name } => StepModel {
            phase: Phase::CreateAskPass { name, username: t },
            dbs,
            text: "Enter password:"@,
            close: false,
        },
        Phase::CreateAskPass { name, username } => create_outcome(dbs, name, empty_db(true, Some(username), Some(t))),
        Phase::AuthAskUser { name, failures } => StepModel {
            phase: Phase::AuthAskPass { name, username: t, failures },
            dbs,
            text: "Password:"@,
            close: false,
        },
        Phase::AuthAskPass { name, username, failures } => if !dbs.contains_key(name) {
            StepModel {
                phase: Phase::Unbound,
                dbs,
                text: framed("Database '"@, name, "' not found"@),
                close: false,
            }
        } else if credentials_match(dbs[name], username, t) {
            StepModel {
                phase: Phase::Bound { name },
                dbs,
                text: framed("Authentication successful. Using database '"@, name, "'"@),
                close: false,
            }
        } else if failures + 1 >= MAX_AUTH_ATTEMPTS {
            StepModel {
                phase: Phase::Closed,
                dbs,
                text: "Too many failed authentication attempts. Disconnecting."@,
                close: true,
            }
        } else {
            StepModel {
                phase: Phase::AuthAskUser { name, failures: failures + 1 },
                dbs,
                text: "Authentication failed. Try again.\nUsername:"@,
                close: false,
            }
        },
        Phase::Unbound => if t.len() == 0 {
            StepModel { phase: p, dbs, text: Seq::empty(), close: false }
        } else {
            match dialog_command(line) {
                Some((true, name)) => if dbs.contains_key(name) {
                    StepModel {
                        phase: p,
                        dbs,
                        text: framed("Database '"@, name, "' already exists"@),
                        close: false,
                    }
                } else {
                    StepModel {
                        phase: Phase::CreateAskAuth { name },
                        dbs,
                        text: "Do you want authentication (yes/no)?"@,
                        close: false,
                    }
                },
                Some((false, name)) => if !dbs.contains_key(name) {
                    StepModel { phase: p, dbs, text: framed("Database '"@, name, "' not found"@), close: false }
                } else if dbs[name].require_auth {
                    StepModel {
                        phase: Phase::AuthAskUser { name, failures: 0 },
                        dbs,
                        text: "Username:"@,
                        close: false,
                    }
                } else {
                    StepModel {
                        phase: Phase::Bound { name },
                        dbs,
                        text: framed("Using database '"@, name, "'"@),
                        close: false,
                    }
                },
                None => StepModel { phase: p, dbs, text: "No database selected"@, close: false },
            }
        },
        Phase::Bound { name } => if t.len() == 0 {
            StepModel { phase: p, dbs, text: Seq::empty(), close: false }
        } else {
            match dialog_command(line) {
                Some((true, _)) => StepModel {
                    phase: p,
                    dbs,
                    text: "Cannot create a database. A database is already selected."@,
                    close: false,
                },
                Some((false, _)) => StepModel {
                    phase: p,
                    dbs,
                    text: "Cannot use a different database. A database is already selected."@,
                    close: false,
                },
                None => command_outcome(dbs, name, line, now),
            }
        },
    }
}

/// One answer to the password prompt: right credentials bind the session;
/// a wrong pair counts one failure, and the third failure in a row closes
/// the connection. The registry is not touched.
pub proof fn lemma_auth_attempt(
    dbs: Map<Seq<char>, DbModel>,
    name: Seq<char>,
    username: Seq<char>,
    failures: nat,
    line: Seq<char>,
    now: u64,
)
    requires
        dbs.contains_key(name),
        failures < MAX_AUTH_ATTEMPTS,
    ensures
        ({
            let o = step(Phase::AuthAskPass { name, username, failures }, dbs, line, now);
            &&& o.dbs == dbs
            &&& credentials_match(dbs[name], username, trim(line)) ==> o.phase == Phase::Bound { name } && !o.close
            &&& !credentials_match(dbs[name], username, trim(line)) && failures + 1 < MAX_AUTH_ATTEMPTS ==> o.phase
                == Phase::AuthAskUser { name, failures: failures + 1 } && !o.close
            &&& !credentials_match(dbs[name], username, trim(line)) && failures + 1 == MAX_AUTH_ATTEMPTS ==> o.phase
                == Phase::Closed && o.close
        }),
{
}

/// From the first credential prompt, three wrong username/password pairs in
/// a row close the connection, and only the third does.
pub proof fn lemma_three_failures_close(
    dbs: Map<Seq<char>, DbModel>,
    name: Seq<char>,
    u1: Seq<char>,
    p1: Seq<char>,
    u2: Seq<char>,
    p2: Seq<char>,
    u3: Seq<char>,
    p3: Seq<char>,
    now: u64,
)
    requires
        dbs.contains_key(name),
        !credentials_match(dbs[name], trim(u1), trim(p1)),
        !credentials_match(dbs[name], trim(u2), trim(p2)),
        !credentials_match(dbs[name], trim(u3), trim(p3)),
    ensures
        ({
            let s1 = step(Phase::AuthAskUser { name, failures: 0 }, dbs, u1, now);
            let s2 = step(s1.phase, s1.dbs, p1, now);
            let s3 = step(s2.phase, s2.dbs, u2, now);
            let s4 = step(s3.phase, s3.dbs, p2, now);
            let s5 = step(s4.phase, s4.dbs, u3, now);
            let s6 = step(s5.phase, s5.dbs, p3, now);
            &&& !s1.close && !s2.close && !s3.close && !s4.close && !s5.close
            &&& s6.close && s6.phase == Phase::Closed && s6.dbs == dbs
        }),
{
}

/// Two wrong pairs do not use up the budget: a right pair on the third
/// attempt binds the session.
pub proof fn lemma_third_attempt_succeeds(
    dbs: Map<Seq<char>, DbModel>,
    name: Seq<char>,
    u1: Seq<char>,
    p1: Seq<char>,
    u2: Seq<char>,
    p2: Seq<char>,
    u3: Seq<char>,
    p3: Seq<char>,
    now: u64,
)
    requires
        dbs.contains_key(name),
        !credentials_match(dbs[name], trim(u1), trim(p1)),
        !credentials_match(dbs[name], trim(u2), trim(p2)),
        credentials_match(dbs[name], trim(u3), trim(p3)),
    ensures
        ({
            let s1 = step(Phase::AuthAskUser { name, failures: 0 }, dbs, u1, now);
            let s2 = step(s1.phase, s1.dbs, p1, now);
            let s3 = step(s2.phase, s2.dbs, u2, now);
            let s4 = step(s3.phase, s3.dbs, p2, now);
            let s5 = step(s4.phase, s4.dbs, u3, now);
            let s6 = step(s5.phase, s5.dbs, p3, now);
            &&& !s6.close && s6.phase == Phase::Bound { name } && s6.dbs == dbs
        }),
{
}

/// A line from a session bound to database `a` never changes, adds or
/// removes another database `b`: what is set in `a` is not visible in `b`.
pub proof fn lemma_databases_isolated(
    dbs: Map<Seq<char>, DbModel>,
    a: Seq<char>,
    b: Seq<char>,
    line: Seq<char>,
    now: u64,
)
    requires
        a != b,
    ensures
        ({
            let o = step(Phase::Bound { name: a }, dbs, line, now);
            &&& o.dbs.contains_key(b) == dbs.contains_key(b)
            &&& dbs.contains_key(b) ==> o.dbs[b] == dbs[b]
        }),
{
}

/// `prefix`, then `name`, then `suffix`.
fn framed_text(prefix: &str, name: &String, suffix: &str) -> (r: String)
    ensures
        r@ == framed(prefix@, name@, suffix@),
{
    let mut r = String::from_str(prefix);
    r.append(name.as_str());
    r.append(suffix);
    r
}

/// Whether `t[0..p]` spells `w`.
fn prefix_is(t: &Vec<char>, p: usize, w: &str) -> (r: bool)
    requires
        p <= t@.len(),
    ensures
        r == (t@.subrange(0, p as int) == w@),
{
    let n: usize = w.unicode_len();
    if n != p {
        assert(t@.subrange(0, p as int).len() != w@.len());
        return false;
    }
    let mut i: usize = 0;
    while i < n
        invariant
            n == p,
            n == w@.len(),
            p <= t@.len(),
            i <= n,
            forall|k: int| 0 <= k < i ==> t@[k] == w@[k],
        decreases n - i,
    {
        if t[i] != w.get_char(i) {
            assert(t@.subrange(0, p as int)[i as int] != w@[i as int]);
            return false;
        }
        i = i + 1;
    }
    assert(t@.subrange(0, p as int) =~= w@);
    true
}

/// `line` without its leading and trailing blanks.
pub fn trimmed(line: &str) -> (r: String)
    ensures
        r@ == trim(line@),
{
    let v = chars_of(line);
    let (lo, hi) = trim_bounds(&v);
    substring(line, lo, hi)
}

/// Reads `create <name>` or `use <name>`.
pub fn dialog_command_of(line: &str) -> (r: Option<(bool, String)>)
    ensures
        match r {
            Some((c, name)) => dialog_command(line@) == Some((c, name@)),
            None => dialog_command(line@) is None,
        },
{
    let v = chars_of(line);
    let (lo, hi) = trim_bounds(&v);
    let t = copy_range(&v, lo, hi);
    let ghost tt = t@;
    let n: usize = t.len();
    let p = find_ws_from(&t, 0);
    let q = skip_ws_from(&t, p);
    let a = copy_range(&t, q, n);
    assert(a@ == tail_words(tt));
    let pa = find_ws_from(&a, 0);
    if !(a.len() > 0 && pa == a.len()) {
        return None;
    }
    assert(line@.subrange(lo + q, hi as int) =~= a@);
    if prefix_is(&t, p, "create") {
        Some((true, substring(line, lo + q, hi)))
    } else if prefix_is(&t, p, "use") {
        Some((false, substring(line, lo + q, hi)))
    } else {
        None
    }
}

/// Whether `t` is `yes` in any mix of case.
fn answer_is_yes(t: &String) -> (r: bool)
    ensures
        r == is_yes(t@),
{
    let s = t.as_str();
    if s.unicode_len() != 3 {
        return false;
    }
    let a = s.get_char(0);
    let b = s.get_char(1);
    let c = s.get_char(2);
    (a == 'y' || a == 'Y') && (b == 'e' || b == 'E') && (c == 's' || c == 'S')
}

fn reply(text: String) -> (r: Reply)
    ensures
        r.text@ == text@,
        !r.close,
{
    Reply { text, close: false }
}

/// One connection's dialog with the registry.
pub struct Session {
    pub state: SessionState,
}

impl Session {
    pub open spec fn wf(&self) -> bool {
        phase_wf(self.state@)
    }

    /// A session with no database selected.
    pub fn new() -> (r: Self)
        ensures
            r.wf(),
            r.state@ == Phase::Unbound,
    {
        Session { state: SessionState::Unbound }
    }

    /// The name of the selected database, if one is bound.
    pub fn bound_db(&self) -> (r: Option<&String>)
        ensures
            match self.state@ {
                Phase::Bound { name } => r is Some && r->0@ == name,
                _ => r is None,
            },
    {
        match &self.state {
            SessionState::Bound { name } => Some(name),
            _ => None,
        }
    }

    /// Creates database `name` for the dialog that asked for it.
    fn finish_create(&mut self, registry: &mut Registry, name: String, db: DbInstance) -> (r: Reply)
        requires
            old(registry).wf(),
            db.wf(),
        ensures
            final(registry).wf(),
            final(self).wf(),
            create_outcome(old(registry)@, name@, db@) == (StepModel {
                phase: final(self).state@,
                dbs: final(registry)@,
                text: r.text@,
                close: r.close,
            }),
    {
        self.state = SessionState::Unbound;
        let ghost n = name@;
        let msg = framed_text("Database '", &name, "' already exists");
        match registry.create(name, db) {
            Ok(()) => reply(String::from_str("Database created successfully")),
            Err(_) => reply(msg),
        }
    }

    /// Handles one line of client input at `now` and returns the reply;
    /// an empty reply means that none is sent.
    pub fn handle_line(&mut self, registry: &mut Registry, line: &str, now: u64) -> (r: Reply)
        requires
            old(self).wf(),
            old(registry).wf(),
        ensures
            final(self).wf(),
            final(registry).wf(),
            step(old(self).state@, old(registry)@, line@, now) == (StepModel {
                phase: final(self).state@,
                dbs: final(registry)@,
                text: r.text@,
                close: r.close,
            }),
    {
        let t = trimmed(line);
        let mut state = SessionState::Closed;
        core::mem::swap(&mut self.state, &mut state);
        match state {
            SessionState::Closed => Reply { text: String::new(), close: true },
            SessionState::CreateAskAuth { name } => {
                if answer_is_yes(&t) {
                    self.state = SessionState::CreateAskUser { name };
                    reply(String::from_str("Enter username:"))
                } else {
                    self.finish_create(registry, name, DbInstance::new(false, None, None))
                }
            },
            SessionState::CreateAskUser { name } => {
                self.state = SessionState::CreateAskPass { name, username: t };
                reply(String::from_str("Enter password:"))
            },
            SessionState::CreateAskPass { name, username } => {
                self.finish_create(registry, name, DbInstance::new(true, Some(username), Some(t)))
            },
            SessionState::AuthAskUser { name, failures } => {
                self.state = SessionState::AuthAskPass { name, username: t, failures };
                reply(String::from_str("Password:"))
            },
            SessionState::AuthAskPass { name, username, failures } => {
                self.check_credentials(registry, name, username, failures, line, t, now)
            },
            SessionState::Unbound => self.handle_unbound(registry, line, t, now),
            SessionState::Bound { name } => self.handle_bound(registry, name, line, t, now),
        }
    }

    /// The answer to the password prompt of the credential check.
    fn check_credentials(
        &mut self,
        registry: &mut Registry,
        name: String,
        username: String,
        failures: u8,
        line: &str,
        t: String,
        now: u64,
    ) -> (r: Reply)
        requires
            old(registry).wf(),
            failures < MAX_AUTH_ATTEMPTS,
            t@ == trim(line@),
        ensures
            final(self).wf(),
            final(registry).wf(),
            step(
                Phase::AuthAskPass { name: name@, username: username@, failures: failures as nat },
                old(registry)@,
                line@,
                now,
            ) == (StepModel { phase: final(self).state@, dbs: final(registry)@, text: r.text@, close: r.close }),
    {
        match registry.authenticate(&name, &username, &t) {
            Err(_) => {
                self.state = SessionState::Unbound;
                reply(framed_text("Database '", &name, "' not found"))
            },
            Ok(true) => {
                let msg = framed_text("Authentication successful. Using database '", &name, "'");
                self.state = SessionState::Bound { name };
                reply(msg)
            },
            Ok(false) => {
                if failures + 1 >= MAX_AUTH_ATTEMPTS {
                    self.state = SessionState::Closed;
                    Reply {
                        text: String::from_str("Too many failed authentication attempts. Disconnecting."),
                        close: true,
                    }
                } else {
                    self.state = SessionState::AuthAskUser { name, failures: failures + 1 };
                    reply(String::from_str("Authentication failed. Try again.\nUsername:"))
                }
            },
        }
    }

    /// A line while no database is selected.
    fn handle_unbound(&mut self, registry: &mut Registry, line: &str, t: String, now: u64) -> (r: Reply)
        requires
            old(registry).wf(),
            t@ == trim(line@),
        ensures
            final(self).wf(),
            final(registry).wf(),
            step(Phase::Unbound, old(registry)@, line@, now) == (StepModel {
                phase: final(self).state@,
                dbs: final(registry)@,
                text: r.text@,
                close: r.close,
            }),
    {
        self.state = SessionState::Unbound;
        if t.as_str().unicode_len() == 0 {
            return reply(String::new());
        }
        match dialog_command_of(line) {
            Some((true, name)) => {
                if registry.contains(&name) {
                    reply(framed_text("Database '", &name, "' already exists"))
                } else {
                    self.state = SessionState::CreateAskAuth { name };
                    reply(String::from_str("Do you want authentication (yes/no)?"))
                }
            },
            Some((false, name)) => {
                match registry.requires_auth(&name) {
                    Err(_) => reply(framed_text("Database '", &name, "' not found")),
                    Ok(true) => {
                        self.state = SessionState::AuthAskUser { name, failures: 0 };
                        reply(String::from_str("Username:"))
                    },
                    Ok(false) => {
                        let msg = framed_text("Using database '", &name, "'");
                        self.state = SessionState::Bound { name };
                        reply(msg)
                    },
                }
            },
            None => reply(String::from_str("No database selected")),
        }
    }

    /// A line while database `name` is selected.
    fn handle_bound(&mut self, registry: &mut Registry, name: String, line: &str, t: String, now: u64) -> (r: Reply)
        requires
            old(registry).wf(),
            t@ == trim(line@),
        ensures
            final(self).wf(),
            final(registry).wf(),
            step(Phase::Bound { name: name@ }, old(registry)@, line@, now) == (StepModel {
                phase: final(self).state@,
                dbs: final(registry)@,
                text: r.text@,
                close: r.close,
            }),
    {
        if t.as_str().unicode_len() == 0 {
            self.state = SessionState::Bound { name };
            return reply(String::new());
        }
        match dialog_command_of(line) {
            Some((true, _)) => {
                self.state = SessionState::Bound { name };
                reply(String::from_str("Cannot create a database. A database is already selected."))
            },
            Some((false, _)) => {
                self.state = SessionState::Bound { name };
                reply(String::from_str("Cannot use a different database. A database is already selected."))
            },
            None => {
                let ghost pre = registry@;
                let text = match registry.execute(&name, line, now) {
                    Ok(text) => text,
                    Err(_) => String::from_str("No database selected"),
                };
                proof {
                    let o = command_outcome(pre, name@, line@, now);
                    if pre.contains_key(name@) {
                        match command_of(line@) {
                            Ok(c) => {
                                assert(registry@ =~= o.dbs);
                            },
                            Err(e) => {
                                assert(registry@ =~= o.dbs);
                            },
                        }
                    }
                }
                self.state = SessionState::Bound { name };
                reply(text)
            },
        }
    }
}

} // verus!
