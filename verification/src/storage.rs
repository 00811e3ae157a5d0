//! The print store's naming rules: where the store is rooted, which strings may stand as a path
//! component under it, and the three components that name a user's prints for one reader.
//!
//! `<user>` arrives from a D-Bus caller and `<driver>` and `<device_id>` from the backend; none
//! is a trusted file name. A component that is absolute, `.` or `..`, holds a separator, is
//! empty, or holds a NUL would aim the store's writes outside its tree, so every one of them is
//! refused.

use vstd::prelude::*;

use crate::error::DaemonError;
use crate::device::PrintKeys;
use crate::names::{finger_num, finger_of_file, hex_digit, Finger};

verus! {

/// A legal path component: a single, ordinary file name.
pub open spec fn legal_component(s: Seq<char>) -> bool {
    &&& s.len() > 0
    &&& s != "."@
    &&& s != ".."@
    &&& !s.contains('/')
    &&& !s.contains('\0')
}

/// A lower-case hex digit.
pub open spec fn hex_text(d: int) -> Seq<char> {
    if 0 <= d < 10 {
        seq![(('0' as int) + d) as char]
    } else {
        seq![(('a' as int) + d - 10) as char]
    }
}

/// How a string's debug form spells one character: NUL, tab, carriage return and line feed by
/// their backslash escapes, a quote or backslash escaped, any other control character as
/// `\u{..}` in lower-case hex, and the rest as itself.
pub open spec fn escaped_char(c: char) -> Seq<char> {
    if c == '\0' {
        seq!['\\', '0']
    } else if c == '\t' {
        seq!['\\', 't']
    } else if c == '\r' {
        seq!['\\', 'r']
    } else if c == '\n' {
        seq!['\\', 'n']
    } else if c == '"' {
        seq!['\\', '"']
    } else if c == '\\' {
        seq!['\\', '\\']
    } else if (c as int) < 0x20 || c as int == 0x7f {
        seq!['\\', 'u', '{'] + (if (c as int) < 16 {
            hex_text(c as int)
        } else {
            hex_text((c as int) / 16) + hex_text((c as int) % 16)
        }) + seq!['}']
    } else {
        seq![c]
    }
}

/// The characters of `s`, each spelled as in a debug form.
pub open spec fn escaped(s: Seq<char>) -> Seq<char>
    decreases s.len(),
{
    if s.len() == 0 {
        Seq::empty()
    } else {
        escaped(s.drop_last()) + escaped_char(s.last())
    }
}

/// The refusal message of an illegal component, which shows it quoted and escaped.
pub open spec fn illegal_message(s: Seq<char>) -> Seq<char> {
    "illegal path component \""@ + escaped(s) + "\""@
}

/// The spelling of one lower-case hex digit.
fn hex_str(d: u32) -> (s: &'static str)
    requires
        d < 16,
    ensures
        s@ == hex_text(d as int),
{
    proof {
        reveal_strlit("0");
        reveal_strlit("1");
        reveal_strlit("2");
        reveal_strlit("3");
        reveal_strlit("4");
        reveal_strlit("5");
        reveal_strlit("6");
        reveal_strlit("7");
        reveal_strlit("8");
        reveal_strlit("9");
        reveal_strlit("a");
        reveal_strlit("b");
        reveal_strlit("c");
        reveal_strlit("d");
        reveal_strlit("e");
        reveal_strlit("f");
    }
    match d {
        0 => "0",
        1 => "1",
        2 => "2",
        3 => "3",
        4 => "4",
        5 => "5",
        6 => "6",
        7 => "7",
        8 => "8",
        9 => "9",
        10 => "a",
        11 => "b",
        12 => "c",
        13 => "d",
        14 => "e",
        _ => "f",
    }
}

/// `s` quoted and escaped as its debug form shows it (see [`escaped_char`]).
pub fn debug_quoted(s: &str) -> (q: String)
    ensures
        q@ == "\""@ + escaped(s@) + "\""@,
{
    let n = s.unicode_len();
    let mut out = String::from_str("\"");
    let mut i: usize = 0;
    while i < n
        invariant
            n == s@.len(),
            i <= n,
            out@ == "\""@ + escaped(s@.take(i as int)),
        decreases n - i,
    {
        proof {
            reveal_strlit("\\0");
            reveal_strlit("\\t");
            reveal_strlit("\\r");
            reveal_strlit("\\n");
            reveal_strlit("\\\"");
            reveal_strlit("\\\\");
            reveal_strlit("\\u{");
            reveal_strlit("}");
        }
        let c = s.get_char(i);
        assert(s@.take(i as int + 1).drop_last() =~= s@.take(i as int));
        let code = c as u32;
        let piece: String = if c == '\0' {
            let p = String::from_str("\\0");
            assert(p@ =~= escaped_char(c));
            p
        } else if c == '\t' {
            let p = String::from_str("\\t");
            assert(p@ =~= escaped_char(c));
            p
        } else if c == '\r' {
            let p = String::from_str("\\r");
            assert(p@ =~= escaped_char(c));
            p
        } else if c == '\n' {
            let p = String::from_str("\\n");
            assert(p@ =~= escaped_char(c));
            p
        } else if c == '"' {
            let p = String::from_str("\\\"");
            assert(p@ =~= escaped_char(c));
            p
        } else if c == '\\' {
            let p = String::from_str("\\\\");
            assert(p@ =~= escaped_char(c));
            p
        } else if code < 0x20 || code == 0x7f {
            if code < 16 {
                let p = String::from_str("\\u{").concat(hex_str(code)).concat("}");
                assert(p@ =~= escaped_char(c));
                p
            } else {
                let p = String::from_str("\\u{").concat(hex_str(code / 16)).concat(hex_str(code % 16)).concat("}");
                assert(p@ =~= escaped_char(c));
                p
            }
        } else {
            let p = String::from_str(s.substring_char(i, i + 1));
            assert(s@.subrange(i as int, i as int + 1) =~= seq![c]);
            assert(p@ =~= escaped_char(c));
            p
        };
        proof {
            assert(s@.subrange(i as int, i as int + 1) =~= seq![c]);
            assert(escaped(s@.take(i as int + 1)) == escaped(s@.take(i as int)) + escaped_char(c));
            assert(piece@ =~= escaped_char(c));
        }
        out = out.concat(piece.as_str());
        assert(out@ =~= "\""@ + escaped(s@.take(i as int + 1)));
        i += 1;
    }
    assert(s@.take(n as int) =~= s@);
    out.concat("\"")
}

/// Accept `s` as a path component only if it is a single ordinary file name: not empty, not
/// `.` or `..`, and free of separators and NULs.
pub fn component(s: &str) -> (r: Result<&str, DaemonError>)
    ensures
        legal_component(s@) ==> (r matches Ok(c) && c@ == s@),
        !legal_component(s@) ==> (r matches Err(e) && (e matches DaemonError::Internal(m) && m@
            == illegal_message(s@))),
{
    proof {
        reveal_strlit(".");
        reveal_strlit("..");
    }
    let n = s.unicode_len();
    let mut legal = n > 0;
    let mut i: usize = 0;
    while i < n
        invariant
            n == s@.len(),
            i <= n,
            legal == (n > 0 && forall|j: int| 0 <= j < i ==> s@[j] != '/' && s@[j] != '\0'),
        decreases n - i,
    {
        let c = s.get_char(i);
        if c == '/' || c == '\0' {
            legal = false;
        }
        i += 1;
    }
    if legal && n <= 2 {
        let c0 = s.get_char(0);
        if n == 1 && c0 == '.' {
            legal = false;
        } else if n == 2 && c0 == '.' && s.get_char(1) == '.' {
            legal = false;
        }
    }
    proof {
        if legal {
            assert(!s@.contains('/'));
            assert(!s@.contains('\0'));
            if s@ == "."@ {
                assert(s@[0] == '.');
            }
            if s@ == ".."@ {
                assert(s@[0] == '.' && s@[1] == '.');
            }
        } else {
            if n > 0 && forall|j: int| 0 <= j < n ==> s@[j] != '/' && s@[j] != '\0' {
                if n == 1 {
                    assert(s@ =~= "."@);
                } else {
                    assert(s@ =~= ".."@);
                }
            } else if n > 0 {
                let j = choose|j: int| 0 <= j < n && !(s@[j] != '/' && s@[j] != '\0');
                assert(s@[j] == '/' || s@[j] == '\0');
            }
        }
    }
    if !legal {
        let quoted = debug_quoted(s);
        let msg = String::from_str("illegal path component ").concat(quoted.as_str());
        proof {
            reveal_strlit("illegal path component ");
            reveal_strlit("illegal path component \"");
            reveal_strlit("\"");
            assert(msg@ =~= illegal_message(s@));
        }
        return Err(DaemonError::Internal(msg));
    }
    Ok(s)
}

/// The store's default root.
pub open spec fn default_root() -> Seq<char> {
    "/var/lib/fprint"@
}

/// The first `:`-separated entry of `v`.
pub open spec fn first_entry(v: Seq<char>) -> Seq<char> {
    if v.contains(':') {
        let k = choose|k: int| 0 <= k < v.len() && v[k] == ':' && forall|j: int| 0 <= j < k ==> v[j] != ':';
        v.subrange(0, k)
    } else {
        v
    }
}

/// The root a store takes from the state directory variable's value: its first `:`-separated
/// entry, or `/var/lib/fprint` when that is empty or the variable is unset.
pub open spec fn root_from(state_directory: Option<Seq<char>>) -> Seq<char> {
    match state_directory {
        Some(v) => if first_entry(v).len() > 0 {
            first_entry(v)
        } else {
            default_root()
        },
        None => default_root(),
    }
}

/// The store root for the state directory variable's value (see [`root_from`]).
pub fn store_root_from(state_directory: Option<&str>) -> (r: String)
    ensures
        r@ == root_from(
            match state_directory {
                Some(v) => Some(v@),
                None => None::<Seq<char>>,
            },
        ),
{
    match state_directory {
        None => String::from_str("/var/lib/fprint"),
        Some(v) => {
            let n = v.unicode_len();
            let mut k: usize = 0;
            while k < n
                invariant
                    n == v@.len(),
                    k <= n,
                    forall|j: int| 0 <= j < k ==> v@[j] != ':',
                ensures
                    k <= n,
                    forall|j: int| 0 <= j < k ==> v@[j] != ':',
                    k < n ==> v@[k as int] == ':',
                decreases n - k,
            {
                if v.get_char(k) == ':' {
                    break;
                }
                k += 1;
            }
            proof {
                if k < n {
                    assert(v@[k as int] == ':');
                    assert(v@.contains(':'));
                    let k2 = choose|k2: int| 0 <= k2 < v@.len() && v@[k2] == ':' && forall|j: int|
                        0 <= j < k2 ==> v@[j] != ':';
                    assert(k2 == k) by {
                        if k2 < k {
                            assert(v@[k2] != ':');
                        }
                        if k2 > k {
                            assert(v@[k as int] != ':');
                        }
                    }
                } else {
                    assert(!v@.contains(':'));
                    assert(v@.subrange(0, k as int) =~= v@);
                }
            }
            if k == 0 {
                return String::from_str("/var/lib/fprint");
            }
            String::from_str(v.substring_char(0, k))
        },
    }
}

/// `base` with the relative component `c` appended, as a path join does: a separator goes
/// between them unless `base` is empty or already ends in one.
pub open spec fn joined(base: Seq<char>, c: Seq<char>) -> Seq<char> {
    if base.len() == 0 || base.last() == '/' {
        base + c
    } else {
        base + seq!['/'] + c
    }
}

/// Append the relative component `c` to the path `base` (see [`joined`]).
pub fn join_component(base: &str, c: &str) -> (p: String)
    ensures
        p@ == joined(base@, c@),
{
    proof {
        reveal_strlit("/");
    }
    let n = base.unicode_len();
    if n == 0 || base.get_char(n - 1) == '/' {
        String::from_str(base).concat(c)
    } else {
        String::from_str(base).concat("/").concat(c)
    }
}

/// The file name of a finger's print: its number as one lower-case hex digit.
pub fn finger_file_name(f: Finger) -> (s: &'static str)
    ensures
        s@ == seq![hex_digit(finger_num(f))],
{
    proof {
        reveal_strlit("0");
        reveal_strlit("1");
        reveal_strlit("2");
        reveal_strlit("3");
        reveal_strlit("4");
        reveal_strlit("5");
        reveal_strlit("6");
        reveal_strlit("7");
        reveal_strlit("8");
        reveal_strlit("9");
        reveal_strlit("a");
    }
    match f {
        Finger::Unknown => "0",
        Finger::LeftThumb => "1",
        Finger::LeftIndex => "2",
        Finger::LeftMiddle => "3",
        Finger::LeftRing => "4",
        Finger::LeftLittle => "5",
        Finger::RightThumb => "6",
        Finger::RightIndex => "7",
        Finger::RightMiddle => "8",
        Finger::RightRing => "9",
        Finger::RightLittle => "a",
    }
}

/// The name of the temporary file a print is first written to, beside its final name: a dot,
/// the name, and `.tmp`. It is never a single character, so it is never taken for a print.
pub fn temp_file_name(name: &str) -> (t: String)
    ensures
        t@ == "."@ + name@ + ".tmp"@,
{
    String::from_str(".").concat(name).concat(".tmp")
}

/// The fingers named by a directory's entries, in entry order: each entry named after a real
/// finger (see [`finger_of_file`]), others skipped.
pub open spec fn listed(names: Seq<Seq<char>>) -> Seq<Finger>
    decreases names.len(),
{
    if names.len() == 0 {
        Seq::empty()
    } else {
        let rest = listed(names.drop_last());
        match finger_of_file(names.last()) {
            Some(f) => rest.push(f),
            None => rest,
        }
    }
}

/// The fingers enrolled, from the names of the entries of a reader's directory.
pub fn fingers_from_names(names: &[&str]) -> (r: Vec<Finger>)
    ensures
        r@ == listed(names@.map_values(|n: &str| n@)),
{
    let ghost all = names@.map_values(|n: &str| n@);
    let mut out: Vec<Finger> = Vec::new();
    let mut k: usize = 0;
    while k < names.len()
        invariant
            k <= names@.len(),
            all == names@.map_values(|n: &str| n@),
            out@ == listed(all.take(k as int)),
        decreases names@.len() - k,
    {
        assert(all.take(k as int + 1).drop_last() =~= all.take(k as int));
        if let Some(f) = crate::names::finger_from_file_name(names[k]) {
            out.push(f);
        }
        k += 1;
    }
    assert(all.take(names@.len() as int) =~= all);
    out
}

/// The on-disk print store, rooted at a state directory.
#[derive(Debug)]
pub struct Store {
    root: String,
}

impl Store {
    /// The store's root.
    pub closed spec fn root_path(&self) -> Seq<char> {
        self.root@
    }

    /// A store rooted at an explicit path.
    pub fn with_root(root: String) -> (s: Store)
        ensures
            s.root_path() == root@,
    {
        Store { root }
    }

    /// A store rooted as the state directory variable's value says (see [`root_from`]).
    pub fn from_state_directory(state_directory: Option<&str>) -> (s: Store)
        ensures
            s.root_path() == root_from(
                match state_directory {
                    Some(v) => Some(v@),
                    None => None::<Seq<char>>,
                },
            ),
    {
        Store { root: store_root_from(state_directory) }
    }

    /// The store's root path.
    pub fn root(&self) -> (r: &str)
        ensures
            r@ == self.root_path(),
    {
        self.root.as_str()
    }

    /// The three components naming a user's prints for one reader, `<user>/<driver>/<device_id>`
    /// under the root, checked in that order; the first illegal one is refused (see
    /// [`component`]).
    pub fn dir_components<'a>(&self, user: &'a str, driver: &'a str, device_id: &'a str) -> (r:
        Result<(&'a str, &'a str, &'a str), DaemonError>)
        ensures
            (legal_component(user@) && legal_component(driver@) && legal_component(device_id@))
                ==> (r matches Ok(c) && c.0@ == user@ && c.1@ == driver@ && c.2@ == device_id@),
            !legal_component(user@) ==> (r matches Err(e) && (e matches DaemonError::Internal(m)
                && m@ == illegal_message(user@))),
            legal_component(user@) && !legal_component(driver@) ==> (r matches Err(e) && (e matches DaemonError::Internal(
                m,
            ) && m@ == illegal_message(driver@))),
            legal_component(user@) && legal_component(driver@) && !legal_component(device_id@)
                ==> (r matches Err(e) && (e matches DaemonError::Internal(m) && m@ == illegal_message(
                device_id@,
            ))),
    {
        let u = match component(user) {
            Ok(u) => u,
            Err(e) => return Err(e),
        };
        let d = match component(driver) {
            Ok(d) => d,
            Err(e) => return Err(e),
        };
        let i = match component(device_id) {
            Ok(i) => i,
            Err(e) => return Err(e),
        };
        Ok((u, d, i))
    }
}

impl Store {
    /// The directory holding a user's prints for one reader.
    pub open spec fn dir_path(&self, user: Seq<char>, driver: Seq<char>, device_id: Seq<char>) -> Seq<char> {
        joined(joined(joined(self.root_path(), user), driver), device_id)
    }

    /// `<root>/<user>/<driver>/<device_id>`, or the refusal of the first illegal component.
    pub fn dir(&self, user: &str, driver: &str, device_id: &str) -> (r: Result<String, DaemonError>)
        ensures
            (legal_component(user@) && legal_component(driver@) && legal_component(device_id@))
                ==> (r matches Ok(p) && p@ == self.dir_path(user@, driver@, device_id@)),
            !legal_component(user@) ==> (r matches Err(e) && (e matches DaemonError::Internal(m)
                && m@ == illegal_message(user@))),
            legal_component(user@) && !legal_component(driver@) ==> (r matches Err(e) && (e matches DaemonError::Internal(
                m,
            ) && m@ == illegal_message(driver@))),
            legal_component(user@) && legal_component(driver@) && !legal_component(device_id@)
                ==> (r matches Err(e) && (e matches DaemonError::Internal(m) && m@ == illegal_message(
                device_id@,
            ))),
    {
        let (u, d, i) = match self.dir_components(user, driver, device_id) {
            Ok(c) => c,
            Err(e) => return Err(e),
        };
        let a = join_component(self.root.as_str(), u);
        let b = join_component(a.as_str(), d);
        Ok(join_component(b.as_str(), i))
    }

    /// `<root>/<user>/<driver>/<device_id>/<hex-finger>`, or the refusal of the first illegal
    /// component.
    pub fn print_path(&self, user: &str, driver: &str, device_id: &str, finger: Finger) -> (r: Result<
        String,
        DaemonError,
    >)
        ensures
            (legal_component(user@) && legal_component(driver@) && legal_component(device_id@))
                ==> (r matches Ok(p) && p@ == joined(
                self.dir_path(user@, driver@, device_id@),
                seq![hex_digit(finger_num(finger))],
            )),
            !(legal_component(user@) && legal_component(driver@) && legal_component(device_id@))
                ==> r is Err,
    {
        let dir = match self.dir(user, driver, device_id) {
            Ok(p) => p,
            Err(e) => return Err(e),
        };
        Ok(join_component(dir.as_str(), finger_file_name(finger)))
    }

    /// The directories to prune, innermost first, once a print is deleted: the reader's, the
    /// driver's and the user's, each removed only while empty and never the root.
    pub fn prune_dirs(&self, user: &str, driver: &str, device_id: &str) -> (r: Result<
        Vec<String>,
        DaemonError,
    >)
        ensures
            (legal_component(user@) && legal_component(driver@) && legal_component(device_id@))
                ==> (r matches Ok(v) && v@.len() == 3 && v@[0]@ == self.dir_path(user@, driver@, device_id@)
                && v@[1]@ == joined(joined(self.root_path(), user@), driver@) && v@[2]@ == joined(
                self.root_path(),
                user@,
            )),
            !(legal_component(user@) && legal_component(driver@) && legal_component(device_id@))
                ==> r is Err,
    {
        let (u, d, i) = match self.dir_components(user, driver, device_id) {
            Ok(c) => c,
            Err(e) => return Err(e),
        };
        let a = join_component(self.root.as_str(), u);
        let b = join_component(a.as_str(), d);
        let c = join_component(b.as_str(), i);
        let mut v: Vec<String> = Vec::new();
        v.push(c);
        v.push(b);
        v.push(a);
        Ok(v)
    }
}

/// `a`, a separator, then `b`.
pub open spec fn slash(a: Seq<char>, b: Seq<char>) -> Seq<char> {
    a + seq!['/'] + b
}

/// Appending a legal component to a path that ends in one is appending a separator and it.
proof fn lemma_join_after_component(base: Seq<char>, c: Seq<char>, d: Seq<char>)
    requires
        legal_component(c),
    ensures
        joined(joined(base, c), d) == joined(base, slash(c, d)),
        joined(base, c).len() > 0 && joined(base, c).last() != '/',
{
    let jc = joined(base, c);
    assert(jc.last() == c.last()) by {
        if base.len() == 0 || base.last() == '/' {
            assert(jc =~= base + c);
        } else {
            assert(jc =~= base + seq!['/'] + c);
        }
    }
    assert(c.contains(c.last())) by {
        assert(c[c.len() - 1] == c.last());
    }
    if base.len() == 0 || base.last() == '/' {
        assert(joined(jc, d) =~= joined(base, slash(c, d)));
    } else {
        assert(joined(jc, d) =~= joined(base, slash(c, d)));
    }
}

/// Every path the store names for a user's prints lies under its root: with legal components
/// (no separator, neither `.` nor `..`, not empty) the reader's directory and a print's file are
/// the root joined with `user/driver/device_id`, and with that and the finger's one-digit name,
/// which is itself a legal component. Any illegal component is refused before a path is formed
/// (see [`Store::dir`] and [`Store::print_path`]).
pub proof fn lemma_paths_stay_under_the_root(
    s: Store,
    user: Seq<char>,
    driver: Seq<char>,
    device_id: Seq<char>,
    finger: Finger,
)
    requires
        legal_component(user),
        legal_component(driver),
        legal_component(device_id),
    ensures
        s.dir_path(user, driver, device_id) == joined(s.root_path(), slash(slash(user, driver), device_id)),
        legal_component(seq![hex_digit(finger_num(finger))]),
        joined(s.dir_path(user, driver, device_id), seq![hex_digit(finger_num(finger))]) == joined(
            s.root_path(),
            slash(slash(slash(user, driver), device_id), seq![hex_digit(finger_num(finger))]),
        ),
        s.root_path().is_prefix_of(s.dir_path(user, driver, device_id)),
        s.root_path().is_prefix_of(
            joined(s.dir_path(user, driver, device_id), seq![hex_digit(finger_num(finger))]),
        ),
{
    let r = s.root_path();
    let h = seq![hex_digit(finger_num(finger))];
    lemma_join_after_component(r, user, driver);
    let ud = slash(user, driver);
    assert(joined(joined(r, ud), device_id) == joined(r, slash(ud, device_id))) by {
        assert(ud.len() > 0 && ud.last() == driver.last()) by {
            assert(ud[ud.len() - 1] == driver[driver.len() - 1]);
        }
        assert(driver.contains(driver.last())) by {
            assert(driver[driver.len() - 1] == driver.last());
        }
        let jr = joined(r, ud);
        assert(jr.last() == ud.last()) by {
            if r.len() == 0 || r.last() == '/' {
                assert(jr =~= r + ud);
            } else {
                assert(jr =~= r + seq!['/'] + ud);
            }
        }
        if r.len() == 0 || r.last() == '/' {
            assert(joined(jr, device_id) =~= joined(r, slash(ud, device_id)));
        } else {
            assert(joined(jr, device_id) =~= joined(r, slash(ud, device_id)));
        }
    }
    let udi = slash(ud, device_id);
    assert(s.dir_path(user, driver, device_id) == joined(r, udi));
    assert(joined(joined(r, udi), h) == joined(r, slash(udi, h))) by {
        assert(device_id.contains(device_id.last())) by {
            assert(device_id[device_id.len() - 1] == device_id.last());
        }
        assert(udi.last() == device_id.last()) by {
            assert(udi[udi.len() - 1] == device_id[device_id.len() - 1]);
        }
        let jr = joined(r, udi);
        assert(jr.last() == udi.last()) by {
            if r.len() == 0 || r.last() == '/' {
                assert(jr =~= r + udi);
            } else {
                assert(jr =~= r + seq!['/'] + udi);
            }
        }
        if r.len() == 0 || r.last() == '/' {
            assert(joined(jr, h) =~= joined(r, slash(udi, h)));
        } else {
            assert(joined(jr, h) =~= joined(r, slash(udi, h)));
        }
    }
    assert(h != "."@ && h != ".."@ && !h.contains('/') && !h.contains('\0')) by {
        reveal_strlit(".");
        reveal_strlit("..");
        assert(h.len() == 1);
        assert(".."@.len() == 2);
        assert("."@ =~= seq!['.']);
        if h.contains('/') {
            assert(h[0] == '/');
        }
        if h.contains('\0') {
            assert(h[0] == '\0');
        }
        assert(h[0] != '.');
    }
    assert forall|rel: Seq<char>| r.is_prefix_of(#[trigger] joined(r, rel)) by {
        if r.len() == 0 || r.last() == '/' {
            assert(joined(r, rel).subrange(0, r.len() as int) =~= r);
        } else {
            assert(joined(r, rel).subrange(0, r.len() as int) =~= r);
        }
    }
    assert(r.is_prefix_of(joined(r, udi)));
    assert(r.is_prefix_of(joined(r, slash(udi, h))));
}

/// The keys a print is stored under, checked present in the order user, driver, reader,
/// finger; the first one missing is refused ("print has no username", "... driver", "... device
/// id", "... finger").
pub fn save_keys(keys: &PrintKeys) -> (r: Result<(&str, &str, &str, Finger), DaemonError>)
    ensures
        match (keys.username, keys.driver, keys.device_id, keys.finger) {
            (Some(u), Some(d), Some(i), Some(f)) => r matches Ok(k) && k.0@ == u@ && k.1@ == d@
                && k.2@ == i@ && k.3 == f,
            (None, _, _, _) => r matches Err(e) && (e matches DaemonError::Internal(m) && m@
                == "print has no username"@),
            (Some(_), None, _, _) => r matches Err(e) && (e matches DaemonError::Internal(m) && m@
                == "print has no driver"@),
            (Some(_), Some(_), None, _) => r matches Err(e) && (e matches DaemonError::Internal(m)
                && m@ == "print has no device id"@),
            (Some(_), Some(_), Some(_), None) => r matches Err(e) && (e matches DaemonError::Internal(
                m,
            ) && m@ == "print has no finger"@),
        },
{
    let user = match &keys.username {
        Some(u) => u.as_str(),
        None => return Err(DaemonError::Internal(String::from_str("print has no username"))),
    };
    let driver = match &keys.driver {
        Some(d) => d.as_str(),
        None => return Err(DaemonError::Internal(String::from_str("print has no driver"))),
    };
    let device_id = match &keys.device_id {
        Some(i) => i.as_str(),
        None => return Err(DaemonError::Internal(String::from_str("print has no device id"))),
    };
    let finger = match keys.finger {
        Some(f) => f,
        None => return Err(DaemonError::Internal(String::from_str("print has no finger"))),
    };
    Ok((user, driver, device_id, finger))
}

/// Whether a print that carries `stored_finger` and `stored_user` may be used for `finger` of
/// `user`: it must name both, and suit the reader's driver.
pub open spec fn accepts_print(
    stored_finger: Option<Finger>,
    stored_user: Option<Seq<char>>,
    driver_compatible: bool,
    finger: Finger,
    user: Seq<char>,
) -> bool {
    stored_finger == Some(finger) && stored_user == Some(user) && driver_compatible
}

/// Whether a print read back from `<hex-finger>` may be used: it must name that finger and the
/// requesting user, and suit the reader's driver.
pub fn load_accepts(
    stored_finger: Option<Finger>,
    stored_user: Option<&str>,
    driver_compatible: bool,
    finger: Finger,
    user: &str,
) -> (r: bool)
    ensures
        r == (stored_finger == Some(finger) && (stored_user matches Some(u) && u@ == user@)
            && driver_compatible),
        r == accepts_print(
            stored_finger,
            match stored_user {
                Some(u) => Some(u@),
                None => None::<Seq<char>>,
            },
            driver_compatible,
            finger,
            user@,
        ),
{
    if stored_finger != Some(finger) {
        return false;
    }
    match stored_user {
        Some(u) => {
            if !crate::names::str_eq(u, user) {
                return false;
            }
        },
        None => return false,
    }
    driver_compatible
}

/// A saved print loads back only where it was saved: read back for its own finger and user on a
/// compatible driver it is accepted, and for any other user, any other finger or an
/// incompatible driver it is refused, whichever path its file was copied to.
pub proof fn lemma_saved_print_loads_only_for_its_keys(
    keys: PrintKeys,
    user: Seq<char>,
    finger: Finger,
    driver_compatible: bool,
)
    requires
        keys.username is Some,
        keys.finger is Some,
    ensures
        accepts_print(
            keys.finger,
            Some(keys.username->0@),
            true,
            keys.finger->0,
            keys.username->0@,
        ),
        accepts_print(keys.finger, Some(keys.username->0@), driver_compatible, finger, user) <==> (
        finger == keys.finger->0 && user == keys.username->0@ && driver_compatible),
{
}

} // verus!
