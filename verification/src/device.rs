//! Serial device paths: the default device, and the names under which a device may come back
//! after it was unplugged.
use nix::errno::Errno;
use vstd::prelude::*;
use crate::errno::{errno_is_permission_denied, is_permission_denied};
use crate::number::{all_digits, is_digit, number_in, parse_number};
use crate::text::{chars_of, has_prefix, str_eq, string_of, string_views, strip_prefix};

verus! {

/// The serial device that is used where none is given.
pub const DEFAULT_SERIAL_DEVICE: &'static str = "/dev/ttyUSB0";

/// The directory part of a path, as `std::path::Path::parent` gives it.
pub uninterp spec fn path_parent(path: Seq<char>) -> Option<Seq<char>>;

/// The last component of a path, as `std::path::Path::file_name` gives it.
pub uninterp spec fn path_file_name(path: Seq<char>) -> Option<Seq<char>>;

/// `std::path::Path::parent` depends on the text of the path alone. What the components of a
/// path are is left to it.
#[verifier::external_body]
fn parent_of(path: &str) -> (r: Option<String>)
    ensures
        match r {
            Some(dir) => path_parent(path@) == Some(dir@),
            None => path_parent(path@) is None,
        },
{
    match std::path::Path::new(path).parent() {
        Some(dir) => Some(dir.to_string_lossy().into_owned()),
        None => None,
    }
}

/// `std::path::Path::file_name` depends on the text of the path alone. What the components of
/// a path are is left to it.
#[verifier::external_body]
fn file_name_of(path: &str) -> (r: Option<String>)
    ensures
        match r {
            Some(name) => path_file_name(path@) == Some(name@),
            None => path_file_name(path@) is None,
        },
{
    match std::path::Path::new(path).file_name() {
        Some(name) => Some(name.to_string_lossy().into_owned()),
        None => None,
    }
}

/// The text of an error, as `nix` displays it.
pub uninterp spec fn errno_text(errno: Errno) -> Seq<char>;

/// `nix` displays an error by its name and its description, both fixed for each error.
#[verifier::external_body]
fn text_of_errno(errno: Errno) -> (s: String)
    ensures
        s@ == errno_text(errno),
{
    format!("{errno}")
}

/// The message for a serial device that could not be opened. Where permission is missing it
/// says what helps.
pub open spec fn open_error(path: Seq<char>, text: Seq<char>, denied: bool) -> Seq<char> {
    "Error opening serial device "@ + path + ": "@ + text + "."@ + if denied {
        " Run kgdb-console-splitting-proxy with sudo."@
    } else {
        Seq::empty()
    }
}

/// The message for a serial device that could not be opened because of the error that
/// displays as `text`.
pub fn open_error_message(path: &str, text: &str, denied: bool) -> (s: String)
    ensures
        s@ == open_error(path@, text@, denied),
{
    let mut s = "Error opening serial device ".to_owned();
    s.append(path);
    s.append(": ");
    s.append(text);
    s.append(".");
    if denied {
        s.append(" Run kgdb-console-splitting-proxy with sudo.");
    }
    assert(s@ =~= open_error(path@, text@, denied));
    s
}

/// The message for a serial device that could not be opened because of `errno`.
pub fn serial_open_error(path: &str, errno: Errno) -> (s: String)
    ensures
        s@ == open_error(path@, errno_text(errno), is_permission_denied(errno)),
{
    let text = text_of_errno(errno);
    open_error_message(path, text.as_str(), errno_is_permission_denied(errno))
}

/// The number of digits at the end of `s`.
pub open spec fn trailing_digits(s: Seq<char>) -> nat
    decreases s.len(),
{
    if s.len() > 0 && is_digit(s.last(), 10) {
        1 + trailing_digits(s.drop_last())
    } else {
        0
    }
}

/// A device name without the number that it ends with; `None` where it does not end with a
/// number, or is nothing but a number.
pub open spec fn numeric_prefix(name: Seq<char>) -> Option<Seq<char>> {
    let n = name.len() - trailing_digits(name);
    if 0 < n < name.len() {
        Some(name.take(n))
    } else {
        None
    }
}

/// Whether `c` is one of the ten digits.
fn is_ascii_digit(c: char) -> (r: bool)
    ensures
        r == is_digit(c, 10),
{
    '0' <= c && c <= '9'
}

/// The device name `name` without the number that it ends with.
pub fn numbered_name_prefix(name: &str) -> (r: Option<String>)
    ensures
        match r {
            Some(prefix) => numeric_prefix(name@) == Some(prefix@),
            None => numeric_prefix(name@) is None,
        },
{
    let v = chars_of(name);
    let mut n: usize = v.len();
    proof {
        assert(v@.take(v@.len() as int) =~= v@);
    }
    while n > 0 && is_ascii_digit(v[n - 1])
        invariant
            v@ == name@,
            n <= v@.len(),
            trailing_digits(v@) == v@.len() - n + trailing_digits(v@.take(n as int)),
        decreases n,
    {
        proof {
            assert(v@.take(n as int).drop_last() =~= v@.take(n - 1));
            assert(v@.take(n as int).last() == v@[n - 1]);
        }
        n = n - 1;
    }
    proof {
        if n > 0 {
            assert(v@.take(n as int).last() == v@[n - 1]);
        }
        assert(trailing_digits(v@.take(n as int)) == 0);
    }
    if n == 0 || n >= v.len() {
        None
    } else {
        assert(v@.subrange(0, n as int) =~= v@.take(n as int));
        Some(string_of(&v, 0, n))
    }
}

/// The directory of the device `path`, and its name without the number that it ends with.
pub fn serial_numeric_prefix(path: &str) -> (r: Option<(String, String)>)
    ensures
        match r {
            Some((dir, prefix)) => {
                &&& path_parent(path@) == Some(dir@)
                &&& path_file_name(path@) is Some
                &&& numeric_prefix(path_file_name(path@)->0) == Some(prefix@)
            },
            None => path_parent(path@) is None || path_file_name(path@) is None || numeric_prefix(
                path_file_name(path@)->0,
            ) is None,
        },
{
    let dir = match parent_of(path) {
        Some(dir) => dir,
        None => {
            return None;
        },
    };
    let name = match file_name_of(path) {
        Some(name) => name,
        None => {
            return None;
        },
    };
    match numbered_name_prefix(name.as_str()) {
        Some(prefix) => Some((dir, prefix)),
        None => None,
    }
}

/// The default serial device, where it exists.
pub fn default_serial_device(exists: bool) -> (r: Option<String>)
    ensures
        match r {
            Some(path) => exists && path@ == DEFAULT_SERIAL_DEVICE@,
            None => !exists,
        },
{
    if exists {
        Some(DEFAULT_SERIAL_DEVICE.to_owned())
    } else {
        None
    }
}

/// An entry of a directory: its name there, and its path.
pub struct DirEntry {
    pub file_name: String,
    pub path: String,
}

/// A device with its number.
pub struct Sibling {
    pub index: u32,
    pub path: String,
}

/// The number of the device `file_name` among those whose names are `prefix` and a number.
pub open spec fn sibling_index(prefix: Seq<char>, file_name: Seq<char>) -> Option<u32> {
    let suffix = file_name.skip(prefix.len() as int);
    if has_prefix(file_name, prefix) && suffix.len() > 0 && all_digits(suffix, 10) {
        match number_in(suffix, 10, u32::MAX as int) {
            Some(n) => Some(n as u32),
            None => None,
        }
    } else {
        None
    }
}

/// `a` is not after `b` in the order of their characters' code points.
pub open spec fn text_le(a: Seq<char>, b: Seq<char>) -> bool
    decreases a.len(),
{
    if a.len() == 0 {
        true
    } else if b.len() == 0 {
        false
    } else if a[0] != b[0] {
        (a[0] as int) < (b[0] as int)
    } else {
        text_le(a.skip(1), b.skip(1))
    }
}

/// `a` is not after `b`: by number, then by path.
pub open spec fn sibling_le(a: (u32, Seq<char>), b: (u32, Seq<char>)) -> bool {
    a.0 < b.0 || (a.0 == b.0 && text_le(a.1, b.1))
}

/// `sorted` with `x` behind the entries that it is not before.
pub open spec fn inserted(
    sorted: Seq<(u32, Seq<char>)>,
    x: (u32, Seq<char>),
) -> Seq<(u32, Seq<char>)>
    decreases sorted.len(),
{
    if sorted.len() == 0 || sibling_le(sorted.last(), x) {
        sorted.push(x)
    } else {
        inserted(sorted.drop_last(), x).push(sorted.last())
    }
}

/// The abstract value of a directory entry: its name and its path.
pub open spec fn entry_view(e: DirEntry) -> (Seq<char>, Seq<char>) {
    (e.file_name@, e.path@)
}

/// The devices among `entries` whose names are `prefix` and a number, by number, then by
/// path.
pub open spec fn siblings(prefix: Seq<char>, entries: Seq<(Seq<char>, Seq<char>)>) -> Seq<
    (u32, Seq<char>),
>
    decreases entries.len(),
{
    if entries.len() == 0 {
        Seq::empty()
    } else {
        let rest = siblings(prefix, entries.drop_last());
        match sibling_index(prefix, entries.last().0) {
            Some(index) => inserted(rest, (index, entries.last().1)),
            None => rest,
        }
    }
}

/// `paths` followed by the paths of `found` that are not in it yet.
pub open spec fn with_new(paths: Seq<Seq<char>>, found: Seq<(u32, Seq<char>)>) -> Seq<Seq<char>>
    decreases found.len(),
{
    if found.len() == 0 {
        paths
    } else {
        let before = with_new(paths, found.drop_last());
        if before.contains(found.last().1) {
            before
        } else {
            before.push(found.last().1)
        }
    }
}

/// The paths that are tried to reopen the device `configured`: itself first, then the other
/// devices of its kind.
pub open spec fn candidates(
    configured: Seq<char>,
    prefix: Seq<char>,
    entries: Seq<(Seq<char>, Seq<char>)>,
) -> Seq<Seq<char>> {
    with_new(seq![configured], siblings(prefix, entries))
}

fn index_of_sibling(prefix: &str, file_name: &str) -> (r: Option<u32>)
    ensures
        r == sibling_index(prefix@, file_name@),
{
    let suffix = match strip_prefix(file_name, prefix) {
        Some(suffix) => suffix,
        None => {
            return None;
        },
    };
    let v = chars_of(suffix);
    if v.len() == 0 {
        return None;
    }
    let mut i: usize = 0;
    while i < v.len()
        invariant
            v@ == suffix@,
            i <= v@.len(),
            suffix@ == file_name@.skip(prefix@.len() as int),
            has_prefix(file_name@, prefix@),
            forall|k: int| 0 <= k < i ==> #[trigger] is_digit(suffix@[k], 10),
        decreases v@.len() - i,
    {
        if !is_ascii_digit(v[i]) {
            assert(!is_digit(suffix@[i as int], 10));
            return None;
        }
        i = i + 1;
    }
    parse_number(suffix, 10, u32::MAX)
}

fn is_text_le(a: &str, b: &str) -> (r: bool)
    ensures
        r == text_le(a@, b@),
{
    let va = chars_of(a);
    let vb = chars_of(b);
    let mut i: usize = 0;
    proof {
        assert(a@.skip(0) =~= a@);
        assert(b@.skip(0) =~= b@);
    }
    while i < va.len()
        invariant
            va@ == a@,
            vb@ == b@,
            i <= va@.len(),
            i <= vb@.len(),
            text_le(a@, b@) == text_le(a@.skip(i as int), b@.skip(i as int)),
        decreases va@.len() - i,
    {
        proof {
            assert(a@.skip(i as int).skip(1) =~= a@.skip(i + 1));
            if i < vb@.len() {
                assert(b@.skip(i as int).skip(1) =~= b@.skip(i + 1));
            }
        }
        if i >= vb.len() {
            return false;
        }
        if va[i] != vb[i] {
            return va[i] < vb[i];
        }
        i = i + 1;
    }
    true
}

/// The abstract values of `v`.
pub open spec fn sibling_views(v: Seq<Sibling>) -> Seq<(u32, Seq<char>)> {
    v.map_values(|x: Sibling| (x.index, x.path@))
}

proof fn lemma_inserted(sorted: Seq<(u32, Seq<char>)>, x: (u32, Seq<char>), k: int)
    requires
        0 <= k <= sorted.len(),
        k > 0 ==> sibling_le(sorted[k - 1], x),
        forall|i: int| k <= i < sorted.len() ==> !sibling_le(#[trigger] sorted[i], x),
    ensures
        inserted(sorted, x) == sorted.insert(k, x),
    decreases sorted.len(),
{
    if k == sorted.len() {
        assert(sorted.insert(k, x) =~= sorted.push(x));
    } else {
        assert(!sibling_le(sorted[sorted.len() - 1], x));
        lemma_inserted(sorted.drop_last(), x, k);
        assert(sorted.insert(k, x) =~= sorted.drop_last().insert(k, x).push(sorted.last()));
    }
}

fn insert_sibling(v: &mut Vec<Sibling>, x: Sibling)
    ensures
        sibling_views(final(v)@) == inserted(sibling_views(old(v)@), (x.index, x.path@)),
{
    let mut k: usize = v.len();
    let ghost views = sibling_views(v@);
    let ghost xv = (x.index, x.path@);
    while k > 0
        invariant
            k <= v@.len(),
            v@ == old(v)@,
            views == sibling_views(v@),
            xv == (x.index, x.path@),
            forall|i: int| k <= i < v@.len() ==> !sibling_le(#[trigger] views[i], xv),
        decreases k,
    {
        let y = &v[k - 1];
        assert(views[k - 1] == (y.index, y.path@));
        if y.index < x.index || (y.index == x.index && is_text_le(
            y.path.as_str(),
            x.path.as_str(),
        )) {
            proof {
                lemma_inserted(views, xv, k as int);
            }
            v.insert(k, x);
            assert(sibling_views(v@) =~= views.insert(k as int, xv));
            return ;
        }
        k = k - 1;
    }
    proof {
        lemma_inserted(views, xv, 0);
    }
    v.insert(0, x);
    assert(sibling_views(v@) =~= views.insert(0, xv));
}

fn has_string(v: &Vec<String>, s: &String) -> (r: bool)
    ensures
        r == string_views(v@).contains(s@),
{
    let mut i: usize = 0;
    while i < v.len()
        invariant
            i <= v@.len(),
            forall|k: int| 0 <= k < i ==> string_views(v@)[k] != s@,
        decreases v@.len() - i,
    {
        assert(string_views(v@)[i as int] == v@[i as int]@);
        if str_eq(v[i].as_str(), s.as_str()) {
            return true;
        }
        i = i + 1;
    }
    false
}

/// The paths that are tried to reopen the device `configured`: itself first, then those of
/// `entries` whose names are `prefix` and a number, by number, then by path, each once.
pub fn serial_reconnect_candidates(
    configured: &str,
    prefix: &str,
    entries: &Vec<DirEntry>,
) -> (r: Vec<String>)
    ensures
        string_views(r@) == candidates(configured@, prefix@, entries@.map_values(|e: DirEntry| entry_view(e))),
{
    let ghost views = entries@.map_values(|e: DirEntry| entry_view(e));
    let mut found: Vec<Sibling> = Vec::new();
    let mut i: usize = 0;
    proof {
        assert(sibling_views(found@) =~= siblings(prefix@, views.take(0)));
    }
    while i < entries.len()
        invariant
            i <= entries@.len(),
            views == entries@.map_values(|e: DirEntry| entry_view(e)),
            sibling_views(found@) == siblings(prefix@, views.take(i as int)),
        decreases entries@.len() - i,
    {
        proof {
            assert(views.take(i + 1).drop_last() =~= views.take(i as int));
            assert(views.take(i + 1).last() == entry_view(entries@[i as int]));
        }
        let e = &entries[i];
        if let Some(index) = index_of_sibling(prefix, e.file_name.as_str()) {
            insert_sibling(&mut found, Sibling { index, path: e.path.as_str().to_owned() });
        }
        i = i + 1;
    }
    proof {
        assert(views.take(views.len() as int) =~= views);
    }
    let ghost sv = sibling_views(found@);
    let mut r: Vec<String> = Vec::new();
    r.push(configured.to_owned());
    let mut k: usize = 0;
    proof {
        assert(string_views(r@) =~= seq![configured@]);
        assert(sv.take(0) =~= Seq::<(u32, Seq<char>)>::empty());
    }
    while k < found.len()
        invariant
            k <= found@.len(),
            sv == sibling_views(found@),
            string_views(r@) == with_new(seq![configured@], sv.take(k as int)),
        decreases found@.len() - k,
    {
        proof {
            assert(sv.take(k + 1).drop_last() =~= sv.take(k as int));
            assert(sv.take(k + 1).last().1 == found@[k as int].path@);
        }
        let path = found[k].path.as_str().to_owned();
        if !has_string(&r, &path) {
            let ghost before = r@;
            r.push(path);
            assert(string_views(r@) =~= string_views(before).push(path@));
        }
        k = k + 1;
    }
    proof {
        assert(sv.take(sv.len() as int) =~= sv);
    }
    r
}

/// The attempts to open one of several devices, in order.
pub struct OpenAttempts {
    pub configured: String,
    pub candidates: Vec<String>,
    pub tried: usize,
    pub last_error: Option<String>,
}

/// What comes of opening one of several devices.
pub enum OpenStep {
    /// Try to open this path next.
    Open(String),
    /// None could be opened; this is why the last one could not.
    Failed(String),
}

impl OpenAttempts {
    /// No more candidates were tried than there are.
    pub open spec fn wf(&self) -> bool {
        self.tried <= self.candidates@.len()
    }

    /// No attempt has been made yet.
    pub fn new(configured: String, candidates: Vec<String>) -> (a: OpenAttempts)
        ensures
            a.wf(),
            a.configured@ == configured@,
            a.candidates@ == candidates@,
            a.tried == 0,
            a.last_error is None,
    {
        OpenAttempts { configured, candidates, tried: 0, last_error: None }
    }

    /// The next path to open, or the last error where all have been tried.
    pub fn open_serial_candidate(&self) -> (r: OpenStep)
        requires
            self.wf(),
        ensures
            match r {
                OpenStep::Open(path) => self.tried < self.candidates@.len() && path@
                    == self.candidates@[self.tried as int]@,
                OpenStep::Failed(error) => self.tried == self.candidates@.len() && error@
                    == match self.last_error {
                    Some(e) => e@,
                    None => "No serial candidates for "@ + self.configured@,
                },
            },
    {
        if self.tried < self.candidates.len() {
            return OpenStep::Open(self.candidates[self.tried].as_str().to_owned());
        }
        match &self.last_error {
            Some(e) => OpenStep::Failed(e.as_str().to_owned()),
            None => {
                let mut s = "No serial candidates for ".to_owned();
                s.append(self.configured.as_str());
                OpenStep::Failed(s)
            },
        }
    }

    /// Takes why the path that was to be opened could not be.
    pub fn failed(&mut self, error: String)
        requires
            old(self).wf(),
            old(self).tried < old(self).candidates@.len(),
        ensures
            final(self).wf(),
            final(self).configured@ == old(self).configured@,
            final(self).candidates@ == old(self).candidates@,
            final(self).tried == old(self).tried + 1,
            final(self).last_error matches Some(e) && e@ == error@,
    {
        let n = self.candidates.len();
        assert(self.tried < n);
        self.tried = self.tried + 1;
        self.last_error = Some(error);
    }
}

/// `s` begins with `first`, holds nothing twice, and holds, besides `first`, exactly the
/// paths of `found`.
pub open spec fn lists_once(
    s: Seq<Seq<char>>,
    first: Seq<char>,
    found: Seq<(u32, Seq<char>)>,
) -> bool {
    &&& s.len() > 0
    &&& s[0] == first
    &&& s.no_duplicates()
    &&& forall|path: Seq<char>|
        #![trigger s.contains(path)]
        s.contains(path) <==> path == first || exists|i: int|
            0 <= i < found.len() && (#[trigger] found[i]).1 == path
}

proof fn lemma_with_new(first: Seq<char>, found: Seq<(u32, Seq<char>)>)
    ensures
        lists_once(with_new(seq![first], found), first, found),
    decreases found.len(),
{
    let s = with_new(seq![first], found);
    if found.len() == 0 {
        assert forall|path: Seq<char>| #![trigger s.contains(path)] s.contains(path) <==> path
            == first by {
            assert(s[0] == first);
        }
    } else {
        let rest = found.drop_last();
        let before = with_new(seq![first], rest);
        lemma_with_new(first, rest);
        let x = found.last().1;
        assert forall|path: Seq<char>|
            #![trigger s.contains(path)]
            s.contains(path) <==> path == first || exists|i: int|
                0 <= i < found.len() && (#[trigger] found[i]).1 == path by {
            if s.contains(path) {
                if before.contains(path) {
                    if path != first {
                        let i = choose|i: int| 0 <= i < rest.len() && (#[trigger] rest[i]).1 == path;
                        assert(found[i].1 == path);
                    }
                } else {
                    let k = choose|k: int| 0 <= k < s.len() && s[k] == path;
                    if k < before.len() {
                        assert(before[k] == path);
                    }
                    assert(path == x);
                    assert(found[found.len() - 1].1 == path);
                }
            }
            if path == first {
                assert(s[0] == first);
            } else if exists|i: int| 0 <= i < found.len() && (#[trigger] found[i]).1 == path {
                let i = choose|i: int| 0 <= i < found.len() && (#[trigger] found[i]).1 == path;
                if i < rest.len() {
                    assert(rest[i].1 == path);
                    assert(before.contains(path));
                    let k = choose|k: int| 0 <= k < before.len() && before[k] == path;
                    assert(s[k] == path);
                } else if !before.contains(x) {
                    assert(s[before.len() as int] == path);
                } else {
                    let k = choose|k: int| 0 <= k < before.len() && before[k] == path;
                    assert(s[k] == path);
                }
            }
        }
        if !before.contains(x) {
            assert forall|i: int, j: int| 0 <= i < s.len() && 0 <= j < s.len() && i != j implies s[i]
                != s[j] by {
                if i < before.len() {
                    assert(before.contains(before[i]));
                }
                if j < before.len() {
                    assert(before.contains(before[j]));
                }
            }
        }
    }
}

/// `v` is in order.
pub open spec fn in_order(v: Seq<(u32, Seq<char>)>) -> bool {
    forall|i: int, j: int| 0 <= i < j < v.len() ==> sibling_le(v[i], v[j])
}

proof fn lemma_text_le(a: Seq<char>, b: Seq<char>, c: Seq<char>)
    ensures
        text_le(a, b) || text_le(b, a),
        text_le(a, b) && text_le(b, c) ==> text_le(a, c),
    decreases a.len(),
{
    if a.len() > 0 && b.len() > 0 {
        if c.len() > 0 {
            lemma_text_le(a.skip(1), b.skip(1), c.skip(1));
        } else {
            lemma_text_le(a.skip(1), b.skip(1), c);
        }
    }
}

proof fn lemma_inserted_in_order(sorted: Seq<(u32, Seq<char>)>, x: (u32, Seq<char>))
    requires
        in_order(sorted),
    ensures
        in_order(inserted(sorted, x)),
        forall|y: (u32, Seq<char>)|
            #![trigger inserted(sorted, x).contains(y)]
            inserted(sorted, x).contains(y) <==> y == x || sorted.contains(y),
    decreases sorted.len(),
{
    let r = inserted(sorted, x);
    if sorted.len() == 0 || sibling_le(sorted.last(), x) {
        assert forall|i: int, j: int| 0 <= i < j < r.len() implies sibling_le(r[i], r[j]) by {
            if j == sorted.len() {
                if i < sorted.len() - 1 {
                    assert(sibling_le(sorted[i], sorted[sorted.len() - 1]));
                    lemma_text_le(sorted[i].1, sorted.last().1, x.1);
                }
            }
        }
        assert forall|y: (u32, Seq<char>)| #![trigger r.contains(y)] r.contains(y) <==> y == x
            || sorted.contains(y) by {
            assert(r[sorted.len() as int] == x);
            if sorted.contains(y) {
                let k = choose|k: int| 0 <= k < sorted.len() && sorted[k] == y;
                assert(r[k] == y);
            }
            if r.contains(y) && y != x {
                let k = choose|k: int| 0 <= k < r.len() && r[k] == y;
                assert(sorted[k] == y);
            }
        }
    } else {
        let rest = sorted.drop_last();
        let mid = inserted(rest, x);
        lemma_inserted_in_order(rest, x);
        let last = sorted.last();
        assert forall|i: int, j: int| 0 <= i < j < r.len() implies sibling_le(r[i], r[j]) by {
            if j == mid.len() {
                assert(mid.contains(mid[i]));
                if mid[i] == x {
                    lemma_text_le(last.1, x.1, x.1);
                } else {
                    let k = choose|k: int| 0 <= k < rest.len() && rest[k] == mid[i];
                    assert(sibling_le(sorted[k], sorted[sorted.len() - 1]));
                }
            }
        }
        assert forall|y: (u32, Seq<char>)| #![trigger r.contains(y)] r.contains(y) <==> y == x
            || sorted.contains(y) by {
            assert(r[mid.len() as int] == last);
            assert(sorted[sorted.len() - 1] == last);
            if sorted.contains(y) && y != last {
                let k = choose|k: int| 0 <= k < sorted.len() && sorted[k] == y;
                assert(rest[k] == y);
            }
            if y == x || rest.contains(y) {
                assert(mid.contains(y));
                let k = choose|k: int| 0 <= k < mid.len() && mid[k] == y;
                assert(r[k] == y);
            }
            if r.contains(y) && y != last {
                let k = choose|k: int| 0 <= k < r.len() && r[k] == y;
                assert(mid[k] == y);
                assert(mid.contains(y));
                if y != x {
                    let m = choose|m: int| 0 <= m < rest.len() && rest[m] == y;
                    assert(sorted[m] == y);
                }
            }
        }
    }
}

/// The devices that are found among directory entries are in order, by number, then by path,
/// and are exactly the entries whose names are the prefix and a number.
pub proof fn lemma_siblings_in_order(prefix: Seq<char>, entries: Seq<(Seq<char>, Seq<char>)>)
    ensures
        in_order(siblings(prefix, entries)),
        forall|y: (u32, Seq<char>)|
            #![trigger siblings(prefix, entries).contains(y)]
            siblings(prefix, entries).contains(y) <==> exists|i: int|
                0 <= i < entries.len() && sibling_index(prefix, (#[trigger] entries[i]).0) == Some(
                    y.0,
                ) && entries[i].1 == y.1,
    decreases entries.len(),
{
    if entries.len() > 0 {
        let rest = entries.drop_last();
        lemma_siblings_in_order(prefix, rest);
        let last = entries.last();
        let r = siblings(prefix, entries);
        if let Some(index) = sibling_index(prefix, last.0) {
            lemma_inserted_in_order(siblings(prefix, rest), (index, last.1));
        }
        assert forall|y: (u32, Seq<char>)| #![trigger r.contains(y)] r.contains(y) <==> exists|i: int|
            0 <= i < entries.len() && sibling_index(prefix, (#[trigger] entries[i]).0) == Some(y.0)
                && entries[i].1 == y.1 by {
            if siblings(prefix, rest).contains(y) {
                let i = choose|i: int|
                    0 <= i < rest.len() && sibling_index(prefix, (#[trigger] rest[i]).0) == Some(
                        y.0,
                    ) && rest[i].1 == y.1;
                assert(entries[i] == rest[i]);
            }
            assert(entries[entries.len() - 1] == last);
            if exists|i: int|
                0 <= i < entries.len() && sibling_index(prefix, (#[trigger] entries[i]).0) == Some(
                    y.0,
                ) && entries[i].1 == y.1 {
                let i = choose|i: int|
                    0 <= i < entries.len() && sibling_index(prefix, (#[trigger] entries[i]).0)
                        == Some(y.0) && entries[i].1 == y.1;
                if i < rest.len() {
                    assert(rest[i] == entries[i]);
                }
            }
        }
    }
}

/// The configured device is tried first, nothing is tried twice, and besides it exactly the
/// devices of its kind are tried.
pub proof fn lemma_candidates(
    configured: Seq<char>,
    prefix: Seq<char>,
    entries: Seq<(Seq<char>, Seq<char>)>,
)
    ensures
        lists_once(
            candidates(configured, prefix, entries),
            configured,
            siblings(prefix, entries),
        ),
{
    lemma_with_new(configured, siblings(prefix, entries));
}

/// `paths` behind the first are paths of `found`, in the order that they have there: the one
/// at `i + 1` is that of `found[at[i]]`.
pub open spec fn follows(
    paths: Seq<Seq<char>>,
    found: Seq<(u32, Seq<char>)>,
    at: Seq<int>,
) -> bool {
    &&& paths.len() == at.len() + 1
    &&& forall|i: int| 0 <= i < at.len() ==> 0 <= #[trigger] at[i] < found.len()
    &&& forall|i: int| 0 <= i < at.len() ==> paths[i + 1] == found[#[trigger] at[i]].1
    &&& forall|i: int, j: int| 0 <= i < j < at.len() ==> at[i] < at[j]
}

proof fn lemma_with_new_follows(first: Seq<char>, found: Seq<(u32, Seq<char>)>) -> (at: Seq<int>)
    ensures
        follows(with_new(seq![first], found), found, at),
    decreases found.len(),
{
    if found.len() == 0 {
        Seq::empty()
    } else {
        let rest = found.drop_last();
        let before = with_new(seq![first], rest);
        let at = lemma_with_new_follows(first, rest);
        if before.contains(found.last().1) {
            assert(follows(before, found, at)) by {
                assert forall|i: int| 0 <= i < at.len() implies before[i + 1] == found[#[trigger] at[i]].1 by {
                    assert(rest[at[i]] == found[at[i]]);
                }
            }
            at
        } else {
            let more = at.push(found.len() - 1);
            let paths = before.push(found.last().1);
            assert(follows(paths, found, more)) by {
                assert forall|i: int| 0 <= i < more.len() implies paths[i + 1] == found[#[trigger] more[i]].1 by {
                    if i < at.len() {
                        assert(more[i] == at[i]);
                        assert(rest[at[i]] == found[at[i]]);
                        assert(before[i + 1] == rest[at[i]].1);
                    }
                }
            }
            more
        }
    }
}

/// Behind the configured device the others are tried by number, then by path: the order of
/// the candidates is that of the devices that are found, which is in order.
pub proof fn lemma_candidates_in_order(
    configured: Seq<char>,
    prefix: Seq<char>,
    entries: Seq<(Seq<char>, Seq<char>)>,
)
    ensures
        in_order(siblings(prefix, entries)),
        exists|at: Seq<int>|
            follows(candidates(configured, prefix, entries), siblings(prefix, entries), at),
{
    lemma_siblings_in_order(prefix, entries);
    let at = lemma_with_new_follows(configured, siblings(prefix, entries));
    assert(follows(candidates(configured, prefix, entries), siblings(prefix, entries), at));
}

} // verus!
