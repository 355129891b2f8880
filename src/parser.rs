//! The command language `OP("arg",...)`: its grammar, the TTL notation, and
//! the interpreter that applies a command to a store and words the reply.

use vstd::prelude::*;
use vstd::string::*;

use crate::db::{expired_at, expiry_of, EntryModel, Store};
use crate::text::{chars_of, copy_range, substring, trim, trim_bounds};

verus! {

/// The decimal value of the digits `s`.
pub open spec fn digits_value(s: Seq<char>) -> nat
    decreases s.len(),
{
    if s.len() == 0 {
        0
    } else {
        digits_value(s.drop_last()) * 10 + (s.last() as nat - '0' as nat) as nat
    }
}

pub open spec fn is_digit(c: char) -> bool {
    '0' <= c && c <= '9'
}

/// Milliseconds in one TTL unit: `s` seconds, `m` minutes, `d` days.
pub open spec fn unit_ms(c: char) -> Option<nat> {
    if c == 's' {
        Some(1000)
    } else if c == 'm' {
        Some(60_000)
    } else if c == 'd' {
        Some(86_400_000)
    } else {
        None
    }
}

/// The length in milliseconds of a TTL written `<digits><unit>`, if `t` has
/// that form.
pub open spec fn ttl_ms(t: Seq<char>) -> Option<nat> {
    if t.len() >= 2 && (forall|i: int| 0 <= i < t.len() - 1 ==> is_digit(#[trigger] t[i])) && unit_ms(
        t.last(),
    ) is Some {
        Some(digits_value(t.drop_last()) * unit_ms(t.last())->0)
    } else {
        None
    }
}

/// A TTL argument read as milliseconds: `None` where it is not of the form
/// `<digits><unit>` or its length does not fit in a `u64`.
pub fn parse_ttl(t: &Vec<char>) -> (r: Option<u64>)
    ensures
        r == (match ttl_ms(t@) {
            Some(v) => if v <= u64::MAX {
                Some(v as u64)
            } else {
                None
            },
            None => None,
        }),
{
    let n: usize = t.len();
    if n < 2 {
        return None;
    }
    let u = t[n - 1];
    let unit: u64 = if u == 's' {
        1000
    } else if u == 'm' {
        60_000
    } else if u == 'd' {
        86_400_000
    } else {
        return None;
    };
    let ghost d = t@.drop_last();
    let mut acc: u64 = 0;
    let mut overflow = false;
    let mut i: usize = 0;
    while i < n - 1
        invariant
            n == t@.len(),
            n >= 2,
            i <= n - 1,
            d == t@.subrange(0, n - 1),
            forall|k: int| 0 <= k < i ==> is_digit(#[trigger] t@[k]),
            !overflow ==> acc == digits_value(d.subrange(0, i as int)),
            overflow ==> digits_value(d.subrange(0, i as int)) > u64::MAX,
        decreases n - 1 - i,
    {
        let c = t[i];
        if !('0' <= c && c <= '9') {
            return None;
        }
        let dv: u64 = (c as u64) - ('0' as u64);
        let ghost prev = digits_value(d.subrange(0, i as int));
        assert(d.subrange(0, i + 1).drop_last() =~= d.subrange(0, i as int));
        assert(d.subrange(0, i + 1).last() == c);
        assert(digits_value(d.subrange(0, i + 1)) == prev * 10 + dv);
        if !overflow {
            if acc > (u64::MAX - dv) / 10 {
                overflow = true;
                assert(prev * 10 + dv > u64::MAX) by (nonlinear_arith)
                    requires
                        prev == acc,
                        acc > (u64::MAX - dv) / 10,
                        dv <= 9,
                ;
            } else {
                assert(acc * 10 + dv <= u64::MAX) by (nonlinear_arith)
                    requires
                        acc <= (u64::MAX - dv) / 10,
                        dv <= 9,
                ;
                acc = acc * 10 + dv;
            }
        } else {
            assert(prev * 10 + dv > u64::MAX) by (nonlinear_arith)
                requires
                    prev > u64::MAX,
            ;
        }
        i = i + 1;
    }
    assert(d.subrange(0, n - 1) =~= d);
    if overflow {
        assert(digits_value(d) * unit > u64::MAX) by (nonlinear_arith)
            requires
                digits_value(d) > u64::MAX,
                unit >= 1,
        ;
        return None;
    }
    acc.checked_mul(unit)
}

/// The first index in `[i, end)` that holds `c`, or `end`.
pub open spec fn find_char(s: Seq<char>, c: char, i: int, end: int) -> int
    decreases end - i,
{
    if i < end && s[i] != c {
        find_char(s, c, i + 1, end)
    } else {
        i
    }
}

/// `done` followed by the list in `rest`, if there is one.
pub open spec fn join(done: Seq<Seq<char>>, rest: Option<Seq<Seq<char>>>) -> Option<Seq<Seq<char>>> {
    match rest {
        Some(r) => Some(done + r),
        None => None,
    }
}

/// The quoted, comma-separated arguments that fill `s[j..end]` exactly:
/// `"a","b",...`, at least one, with no quote inside an argument.
pub open spec fn arg_list(s: Seq<char>, j: int, end: int) -> Option<Seq<Seq<char>>>
    decreases end - j,
{
    if 0 <= j < end <= s.len() && s[j] == '"' {
        let e = find_char(s, '"', j + 1, end);
        if j < e < end {
            let a = s.subrange(j + 1, e);
            if e + 1 == end {
                Some(seq![a])
            } else if s[e + 1] == ',' && e + 1 < end {
                join(seq![a], arg_list(s, e + 2, end))
            } else {
                None
            }
        } else {
            None
        }
    } else {
        None
    }
}

/// A call `OP(args)`: the name before the first `(`, and the arguments
/// between it and a final `)`; none for `OP()`.
pub open spec fn call_parts(t: Seq<char>) -> Option<(Seq<char>, Seq<Seq<char>>)> {
    let p = find_char(t, '(', 0, t.len() as int);
    if p + 2 <= t.len() && t.last() == ')' {
        let end = t.len() - 1;
        let args = if p + 1 == end {
            Some(Seq::<Seq<char>>::empty())
        } else {
            arg_list(t, p + 1, end)
        };
        match args {
            Some(a) => Some((t.subrange(0, p), a)),
            None => None,
        }
    } else {
        None
    }
}

proof fn lemma_find_char(s: Seq<char>, c: char, i: int, end: int)
    requires
        0 <= i <= end <= s.len(),
    ensures
        i <= find_char(s, c, i, end) <= end,
        find_char(s, c, i, end) < end ==> s[find_char(s, c, i, end)] == c,
    decreases end - i,
{
    if i < end && s[i] != c {
        lemma_find_char(s, c, i + 1, end);
    }
}

/// The first index in `[i, end)` of `t` that holds `c`, or `end`.
fn find_char_in(t: &Vec<char>, c: char, i: usize, end: usize) -> (r: usize)
    requires
        i <= end <= t@.len(),
    ensures
        r == find_char(t@, c, i as int, end as int),
        i <= r <= end,
{
    proof {
        lemma_find_char(t@, c, i as int, end as int);
    }
    let mut k: usize = i;
    while k < end && t[k] != c
        invariant
            i <= k <= end,
            end <= t@.len(),
            find_char(t@, c, i as int, end as int) == find_char(t@, c, k as int, end as int),
        decreases end - k,
    {
        k = k + 1;
    }
    k
}

/// The pieces of `t` that the ranges `r` select.
pub open spec fn pieces(t: Seq<char>, r: Seq<(usize, usize)>) -> Seq<Seq<char>> {
    r.map_values(|p: (usize, usize)| t.subrange(p.0 as int, p.1 as int))
}

/// The bounds of the arguments that fill `t[start..end]`, if they do.
fn parse_args(t: &Vec<char>, start: usize, end: usize) -> (r: Option<Vec<(usize, usize)>>)
    requires
        start < end <= t@.len(),
    ensures
        match r {
            Some(v) => (forall|k: int| 0 <= k < v@.len() ==> (#[trigger] v@[k]).0 <= v@[k].1 <= end)
                && arg_list(t@, start as int, end as int) == Some(pieces(t@, v@)),
            None => arg_list(t@, start as int, end as int) is None,
        },
{
    let mut ranges: Vec<(usize, usize)> = Vec::new();
    let mut j: usize = start;
    loop
        invariant
            start <= j <= end,
            end <= t@.len(),
            forall|k: int| 0 <= k < ranges@.len() ==> (#[trigger] ranges@[k]).0 <= ranges@[k].1 <= end,
            arg_list(t@, start as int, end as int) == join(pieces(t@, ranges@), arg_list(t@, j as int, end as int)),
        decreases end - j,
    {
        if j >= end || t[j] != '"' {
            proof {
                assert(arg_list(t@, j as int, end as int) is None);
            }
            return None;
        }
        let e = find_char_in(t, '"', j + 1, end);
        if e >= end {
            return None;
        }
        let ghost a = t@.subrange(j + 1, e as int);
        let ghost done = pieces(t@, ranges@);
        ranges.push((j + 1, e));
        assert(pieces(t@, ranges@) =~= done + seq![a]);
        if e + 1 == end {
            assert(done + seq![a] =~= done + seq![a] + Seq::<Seq<char>>::empty());
            return Some(ranges);
        }
        if t[e + 1] != ',' {
            return None;
        }
        proof {
            match arg_list(t@, e + 2, end as int) {
                Some(rest) => {
                    assert(done + (seq![a] + rest) =~= (done + seq![a]) + rest);
                },
                None => {},
            }
        }
        j = e + 2;
    }
}

/// A command as the contracts see it.
pub enum CommandModel {
    SetKey { key: Seq<char>, value: Seq<char>, ttl: Option<u64> },
    GetKey { key: Seq<char> },
    DelKey { key: Seq<char> },
}

/// A refused command line as the contracts see it.
pub enum ParseErrorModel {
    Unknown,
    BadTtl { ttl: Seq<char> },
}

/// A command of the protocol.
pub enum Command {
    /// Insert or overwrite `key`, with a TTL in milliseconds if given.
    SetKey { key: String, value: String, ttl: Option<u64> },
    /// Read `key`.
    GetKey { key: String },
    /// Remove `key`.
    DelKey { key: String },
}

/// Why a command line was refused.
pub enum ParseError {
    /// Not one of the known calls, or a wrong number of arguments.
    Unknown,
    /// The TTL argument is not `<integer><unit>` or is too long to represent.
    BadTtl { ttl: String },
}

impl View for Command {
    type V = CommandModel;

    open spec fn view(&self) -> CommandModel {
        match self {
            Command::SetKey { key, value, ttl } => CommandModel::SetKey { key: key@, value: value@, ttl: *ttl },
            Command::GetKey { key } => CommandModel::GetKey { key: key@ },
            Command::DelKey { key } => CommandModel::DelKey { key: key@ },
        }
    }
}

impl View for ParseError {
    type V = ParseErrorModel;

    open spec fn view(&self) -> ParseErrorModel {
        match self {
            ParseError::Unknown => ParseErrorModel::Unknown,
            ParseError::BadTtl { ttl } => ParseErrorModel::BadTtl { ttl: ttl@ },
        }
    }
}

pub open spec fn parsed_view(r: Result<Command, ParseError>) -> Result<CommandModel, ParseErrorModel> {
    match r {
        Ok(c) => Ok(c@),
        Err(e) => Err(e@),
    }
}

pub open spec fn set_word() -> Seq<char> {
    seq!['S', 'E', 'T']
}

pub open spec fn get_word() -> Seq<char> {
    seq!['G', 'E', 'T']
}

pub open spec fn del_word() -> Seq<char> {
    seq!['D', 'E', 'L']
}

/// The command that a line holds: `SET("k","v")`, `SET("k","v","<ttl>")`,
/// `GET("k")` or `DEL("k")`, with blanks around the call ignored.
pub open spec fn command_of(line: Seq<char>) -> Result<CommandModel, ParseErrorModel> {
    match call_parts(trim(line)) {
        None => Err(ParseErrorModel::Unknown),
        Some((op, args)) => if op == set_word() && args.len() == 2 {
            Ok(CommandModel::SetKey { key: args[0], value: args[1], ttl: None })
        } else if op == set_word() && args.len() == 3 {
            match ttl_ms(args[2]) {
                Some(v) => if v <= u64::MAX {
                    Ok(CommandModel::SetKey { key: args[0], value: args[1], ttl: Some(v as u64) })
                } else {
                    Err(ParseErrorModel::BadTtl { ttl: args[2] })
                },
                None => Err(ParseErrorModel::BadTtl { ttl: args[2] }),
            }
        } else if op == get_word() && args.len() == 1 {
            Ok(CommandModel::GetKey { key: args[0] })
        } else if op == del_word() && args.len() == 1 {
            Ok(CommandModel::DelKey { key: args[0] })
        } else {
            Err(ParseErrorModel::Unknown)
        },
    }
}

/// Whether `t[0..p]` spells `a b c`.
fn word_is(t: &Vec<char>, p: usize, a: char, b: char, c: char) -> (r: bool)
    requires
        p <= t@.len(),
    ensures
        r == (t@.subrange(0, p as int) == seq![a, b, c]),
{
    if p == 3 && t[0] == a && t[1] == b && t[2] == c {
        assert(t@.subrange(0, 3) =~= seq![a, b, c]);
        true
    } else {
        proof {
            if p == 3 {
                let w = t@.subrange(0, 3);
                if w == seq![a, b, c] {
                    assert(w[0] == a && w[1] == b && w[2] == c);
                }
            } else {
                assert(t@.subrange(0, p as int).len() != seq![a, b, c].len());
            }
        }
        false
    }
}

/// Reads one command line.
pub fn parse_command(line: &str) -> (r: Result<Command, ParseError>)
    ensures
        parsed_view(r) == command_of(line@),
{
    let v = chars_of(line);
    let (lo, hi) = trim_bounds(&v);
    let t = copy_range(&v, lo, hi);
    let ghost tt = t@;
    assert(tt == trim(line@));
    let n: usize = t.len();
    let p = find_char_in(&t, '(', 0, n);
    if !(n - p >= 2 && t[n - 1] == ')') {
        return Err(ParseError::Unknown);
    }
    let end: usize = n - 1;
    let ranges: Vec<(usize, usize)> = if p + 1 == end {
        assert(pieces(tt, Seq::<(usize, usize)>::empty()) =~= Seq::<Seq<char>>::empty());
        Vec::new()
    } else {
        match parse_args(&t, p + 1, end) {
            Some(r) => r,
            None => {
                return Err(ParseError::Unknown);
            },
        }
    };
    let ghost args = pieces(tt, ranges@);
    assert(call_parts(tt) == Some((tt.subrange(0, p as int), args)));
    let nargs: usize = ranges.len();
    let is_set = word_is(&t, p, 'S', 'E', 'T');
    let is_get = word_is(&t, p, 'G', 'E', 'T');
    let is_del = word_is(&t, p, 'D', 'E', 'L');
    if !((is_set && (nargs == 2 || nargs == 3)) || ((is_get || is_del) && nargs == 1)) {
        return Err(ParseError::Unknown);
    }
    let (a0, b0) = ranges[0];
    assert(line@.subrange(lo + a0, lo + b0) =~= args[0]);
    let key = substring(line, lo + a0, lo + b0);
    if is_get {
        return Ok(Command::GetKey { key });
    }
    if is_del {
        return Ok(Command::DelKey { key });
    }
    let (a1, b1) = ranges[1];
    assert(line@.subrange(lo + a1, lo + b1) =~= args[1]);
    let value = substring(line, lo + a1, lo + b1);
    if nargs == 2 {
        return Ok(Command::SetKey { key, value, ttl: None });
    }
    let (a2, b2) = ranges[2];
    let ttl_chars = copy_range(&t, a2, b2);
    match parse_ttl(&ttl_chars) {
        Some(ms) => Ok(Command::SetKey { key, value, ttl: Some(ms) }),
        None => {
            assert(line@.subrange(lo + a2, lo + b2) =~= args[2]);
            Err(ParseError::BadTtl { ttl: substring(line, lo + a2, lo + b2) })
        },
    }
}

/// The reply to a command that succeeded without a value to show.
pub open spec fn ok_text() -> Seq<char> {
    "OK"@
}

/// The reply to a read or removal of an absent key.
pub open spec fn not_found_text(key: Seq<char>) -> Seq<char> {
    "Key '"@ + key + "' not found"@
}

/// The reply to a line that holds no known command.
pub open spec fn usage_text() -> Seq<char> {
    "Unknown command. Usage: SET(\"key\",\"value\"[,\"ttl\"]) | GET(\"key\") | DEL(\"key\")"@
}

/// The reply to a malformed TTL.
pub open spec fn bad_ttl_text(ttl: Seq<char>) -> Seq<char> {
    "Invalid TTL '"@ + ttl + "': expected <integer><unit> with unit s, m or d"@
}

pub open spec fn error_text(e: ParseErrorModel) -> Seq<char> {
    match e {
        ParseErrorModel::Unknown => usage_text(),
        ParseErrorModel::BadTtl { ttl } => bad_ttl_text(ttl),
    }
}

/// The reply to command `c` on a store of model `m` at `now`.
pub open spec fn reply_of(c: CommandModel, m: Map<Seq<char>, EntryModel>, now: u64) -> Seq<char> {
    match c {
        CommandModel::SetKey { .. } => ok_text(),
        CommandModel::GetKey { key } => if m.contains_key(key) && !expired_at(m[key].expires_at, now) {
            m[key].value
        } else {
            not_found_text(key)
        },
        CommandModel::DelKey { key } => if m.contains_key(key) {
            ok_text()
        } else {
            not_found_text(key)
        },
    }
}

/// The store's model after command `c` on a store of model `m` at `now`.
pub open spec fn after(c: CommandModel, m: Map<Seq<char>, EntryModel>, now: u64) -> Map<Seq<char>, EntryModel> {
    match c {
        CommandModel::SetKey { key, value, ttl } => m.insert(
            key,
            EntryModel { value, expires_at: expiry_of(now, ttl) },
        ),
        CommandModel::GetKey { key } => if m.contains_key(key) && expired_at(m[key].expires_at, now) {
            m.remove(key)
        } else {
            m
        },
        CommandModel::DelKey { key } => m.remove(key),
    }
}

fn not_found(key: &String) -> (r: String)
    ensures
        r@ == not_found_text(key@),
{
    let mut r = String::from_str("Key '");
    r.append(key.as_str());
    r.append("' not found");
    r
}

/// The reply to a refused line.
pub fn error_message(e: &ParseError) -> (r: String)
    ensures
        r@ == error_text(e@),
{
    match e {
        ParseError::Unknown => String::from_str(
            "Unknown command. Usage: SET(\"key\",\"value\"[,\"ttl\"]) | GET(\"key\") | DEL(\"key\")",
        ),
        ParseError::BadTtl { ttl } => {
            let mut r = String::from_str("Invalid TTL '");
            r.append(ttl.as_str());
            r.append("': expected <integer><unit> with unit s, m or d");
            r
        },
    }
}

/// Runs `cmd` on `store` at `now` and returns the reply.
pub fn apply(cmd: Command, store: &mut Store, now: u64) -> (r: String)
    requires
        old(store).wf(),
    ensures
        final(store).wf(),
        r@ == reply_of(cmd@, old(store)@, now),
        final(store)@ == after(cmd@, old(store)@, now),
{
    match cmd {
        Command::SetKey { key, value, ttl } => {
            store.set(key, value, ttl, now);
            String::from_str("OK")
        },
        Command::GetKey { key } => match store.get(&key, now) {
            Some(v) => v,
            None => not_found(&key),
        },
        Command::DelKey { key } => {
            if store.delete(&key) {
                String::from_str("OK")
            } else {
                not_found(&key)
            }
        },
    }
}

/// Interprets one line of client input against the selected database's
/// store at `now`, and returns the reply. A refused line leaves the store
/// as it was.
pub fn parse_statement(input: &str, current_db: &mut Store, now: u64) -> (r: String)
    requires
        old(current_db).wf(),
    ensures
        final(current_db).wf(),
        match command_of(input@) {
            Ok(c) => r@ == reply_of(c, old(current_db)@, now) && final(current_db)@ == after(
                c,
                old(current_db)@,
                now,
            ),
            Err(e) => r@ == error_text(e) && final(current_db)@ == old(current_db)@,
        },
{
    match parse_command(input) {
        Ok(cmd) => apply(cmd, current_db, now),
        Err(e) => error_message(&e),
    }
}

/// A value written without a TTL is read back by every later `GET`, at any
/// instant, and reading it changes nothing.
pub proof fn lemma_set_without_ttl_reads_back(
    m: Map<Seq<char>, EntryModel>,
    key: Seq<char>,
    value: Seq<char>,
    set_at: u64,
    get_at: u64,
)
    ensures
        ({
            let m2 = after(CommandModel::SetKey { key, value, ttl: None }, m, set_at);
            &&& reply_of(CommandModel::GetKey { key }, m2, get_at) == value
            &&& after(CommandModel::GetKey { key }, m2, get_at) == m2
        }),
{
}

/// A value written at `set_at` with a TTL of `ttl` milliseconds is read back
/// at every instant up to and including `set_at + ttl`, and at every later
/// instant the read finds nothing and removes the key.
pub proof fn lemma_ttl_boundary(
    m: Map<Seq<char>, EntryModel>,
    key: Seq<char>,
    value: Seq<char>,
    set_at: u64,
    ttl: u64,
    get_at: u64,
)
    requires
        set_at + ttl <= u64::MAX,
    ensures
        ({
            let m2 = after(CommandModel::SetKey { key, value, ttl: Some(ttl) }, m, set_at);
            &&& get_at <= set_at + ttl ==> reply_of(CommandModel::GetKey { key }, m2, get_at) == value
                && after(CommandModel::GetKey { key }, m2, get_at) == m2
            &&& get_at > set_at + ttl ==> reply_of(CommandModel::GetKey { key }, m2, get_at) == not_found_text(key)
                && !after(CommandModel::GetKey { key }, m2, get_at).contains_key(key)
        }),
{
}

/// `DEL` of an absent key answers that it was not found and changes nothing;
/// of a present key it answers `OK`, and a `GET` right after finds nothing.
pub proof fn lemma_delete_then_get(m: Map<Seq<char>, EntryModel>, key: Seq<char>, del_at: u64, get_at: u64)
    ensures
        !m.contains_key(key) ==> reply_of(CommandModel::DelKey { key }, m, del_at) == not_found_text(key)
            && after(CommandModel::DelKey { key }, m, del_at) == m,
        m.contains_key(key) ==> reply_of(CommandModel::DelKey { key }, m, del_at) == ok_text(),
        ({
            let m2 = after(CommandModel::DelKey { key }, m, del_at);
            &&& !m2.contains_key(key)
            &&& reply_of(CommandModel::GetKey { key }, m2, get_at) == not_found_text(key)
        }),
{
    if !m.contains_key(key) {
        assert(m.remove(key) =~= m);
    }
}

} // verus!
