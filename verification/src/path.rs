use vstd::prelude::*;

use crate::errors::AppError;
use crate::errors::ErrorKind;
use crate::filename::push_char;
use crate::filename::str_eq;
use crate::pathmatch::path_seps;
use crate::split::count_seps;
use crate::split::is_sep;
use crate::split::lemma_count_push;
use crate::split::lemma_split_len;
use crate::split::nonempty;
use crate::split::split_components;
use crate::split::split_str;

verus! {

/// The colon separating the parts of a device storage address.
pub open spec fn colon_sep() -> Seq<char> {
    seq![':']
}

/// Where a path points to, judged from its shape alone.
#[derive(Debug, Copy, Clone, Eq, PartialEq, Structural)]
pub enum PathType {
    Invalid,
    DeviceStorage,
    Local,
}

/// The type a path string denotes: two colons address device storage,
/// none or one a local path, and more than two nothing at all.
pub open spec fn spec_path_type(s: Seq<char>) -> PathType {
    let n = count_seps(s, colon_sep());
    if n > 2 {
        PathType::Invalid
    } else if n == 2 {
        PathType::DeviceStorage
    } else {
        PathType::Local
    }
}

/// Classifies a path string by counting its ':' characters.
pub fn get_path_type(path: &str) -> (r: PathType)
    ensures
        r == spec_path_type(path@),
{
    let n = path.unicode_len();
    let mut colons: u64 = 0;
    proof {
        assert(path@.take(0) =~= Seq::<char>::empty());
    }
    for i in 0..n
        invariant
            n == path@.len(),
            colons <= i,
            colons == count_seps(path@.take(i as int), colon_sep()),
    {
        let c = path.get_char(i);
        proof {
            lemma_count_push(path@.take(i as int), path@[i as int], colon_sep());
            assert(path@.take(i + 1) =~= path@.take(i as int).push(path@[i as int]));
        }
        if c == ':' {
            proof {
                assert(colon_sep()[0] == ':');
                assert(is_sep(path@[i as int], colon_sep()));
            }
            colons = colons + 1;
        } else {
            proof {
                assert(!is_sep(path@[i as int], colon_sep()));
            }
        }
    }
    proof {
        assert(path@.take(n as int) =~= path@);
    }
    if colons > 2 {
        PathType::Invalid
    } else if colons == 2 {
        PathType::DeviceStorage
    } else {
        PathType::Local
    }
}

/// The parts of an address, split at every colon.
pub open spec fn colon_parts(s: Seq<char>) -> Seq<Seq<char>> {
    split_components(s, colon_sep())
}

/// The non-empty separator-free components joined as `\a\b\c`.
pub open spec fn joined_components(ne: Seq<Seq<char>>) -> Seq<char>
    decreases ne.len(),
{
    if ne.len() == 0 {
        Seq::empty()
    } else {
        seq!['\\'] + ne[0] + joined_components(ne.skip(1))
    }
}

/// The canonical form of the path part of an address: separators become
/// single backslashes, repeated separators collapse, and an empty path
/// becomes the root `\`.
pub open spec fn normalize_path(p: Seq<char>) -> Seq<char> {
    let ne = nonempty(split_components(p, path_seps()));
    if ne.len() == 0 {
        seq!['\\']
    } else {
        joined_components(ne)
    }
}

/// A parsed `device-name:storage-name:path` address.
#[derive(Debug, PartialEq, Eq)]
pub struct DeviceStoragePath {
    pub device_name: String,
    pub storage_name: String,
    pub path: String,
}

/// The index of the last `c` in `s`, or -1 if there is none.
pub open spec fn last_index_of(s: Seq<char>, c: char) -> int
    decreases s.len(),
{
    if s.len() == 0 {
        -1
    } else if s[s.len() - 1] == c {
        s.len() - 1
    } else {
        last_index_of(s.drop_last(), c)
    }
}

pub proof fn lemma_last_index_of(s: Seq<char>, c: char)
    ensures
        last_index_of(s, c) >= 0 ==> last_index_of(s, c) < s.len() && s[last_index_of(s, c)] == c
            && forall|j: int| last_index_of(s, c) < j < s.len() ==> s[j] != c,
        last_index_of(s, c) < 0 ==> forall|j: int| 0 <= j < s.len() ==> s[j] != c,
    decreases s.len(),
{
    if s.len() == 0 {
    } else if s[s.len() - 1] == c {
    } else {
        lemma_last_index_of(s.drop_last(), c);
        assert(forall|j: int| 0 <= j < s.len() - 1 ==> s.drop_last()[j] == s[j]);
    }
}

impl DeviceStoragePath {
    /// Parses `device-name:storage-name:path`: exactly two colons are
    /// required, and the path part is normalized to backslash form.
    pub fn from(path: &str) -> (r: Result<DeviceStoragePath, AppError>)
        ensures
            r is Ok <==> count_seps(path@, colon_sep()) == 2,
            r is Ok ==> r->Ok_0.device_name@ == colon_parts(path@)[0],
            r is Ok ==> r->Ok_0.storage_name@ == colon_parts(path@)[1],
            r is Ok ==> r->Ok_0.path@ == normalize_path(colon_parts(path@)[2]),
            r is Err ==> r->Err_0.kind == ErrorKind::InvalidPath,
    {
        let colon: [char; 1] = [':'];
        proof {
            assert(colon@ =~= colon_sep());
            lemma_split_len(path@, colon_sep());
        }
        let parts = split_str(path, &colon);
        if parts.len() != 3 {
            return Err(
                AppError::new(ErrorKind::InvalidPath, "invalid device storage path format."),
            );
        }
        let device_name = parts[0].clone();
        let storage_name = parts[1].clone();
        let normalized = normalize_separators(parts[2].as_str());
        Ok(DeviceStoragePath { device_name, storage_name, path: normalized })
    }

    /// Reconstructs the `device:storage:path` address string.
    pub fn full_path(&self) -> (r: String)
        ensures
            r@ == self.device_name@ + seq![':'] + self.storage_name@ + seq![':'] + self.path@,
    {
        let mut s = self.device_name.clone();
        push_char(&mut s, ':');
        s.append(self.storage_name.as_str());
        push_char(&mut s, ':');
        s.append(self.path.as_str());
        proof {
            assert(s@ =~= self.device_name@ + seq![':'] + self.storage_name@ + seq![':']
                + self.path@);
        }
        s
    }

    /// The name after the last backslash, or `None` when the path ends in
    /// a separator (it denotes a folder) or holds no separator at all.
    pub fn file_name<'s>(&'s self) -> (r: Option<&'s str>)
        ensures
            match r {
                None => (self.path@.len() > 0 && self.path@.last() == '\\') || last_index_of(
                    self.path@,
                    '\\',
                ) < 0,
                Some(name) => self.path@.len() > 0 && self.path@.last() != '\\' && last_index_of(
                    self.path@,
                    '\\',
                ) >= 0 && name@ == self.path@.skip(last_index_of(self.path@, '\\') + 1),
            },
    {
        let n = self.path.unicode_len();
        if n == 0 {
            proof {
                lemma_last_index_of(self.path@, '\\');
            }
            return None;
        }
        if self.path.get_char(n - 1) == '\\' {
            return None;
        }
        match rfind_backslash(self.path.as_str()) {
            None => None,
            Some(idx) => Some(self.path.as_str().substring_char(idx + 1, n)),
        }
    }

    /// The address one level up: `None` at the storage root, else the same
    /// device and storage with the path cut at its last backslash (the
    /// root `\` when the last backslash leads the path or there is none).
    pub fn parent(&self) -> (r: Option<DeviceStoragePath>)
        ensures
            self.path@ == seq!['\\'] ==> r is None,
            self.path@ != seq!['\\'] ==> match r {
                None => false,
                Some(p) => {
                    &&& p.device_name@ == self.device_name@
                    &&& p.storage_name@ == self.storage_name@
                    &&& p.path@ == {
                        let idx = last_index_of(self.path@, '\\');
                        if idx <= 0 {
                            seq!['\\']
                        } else {
                            self.path@.take(idx)
                        }
                    }
                },
            },
    {
        proof {
            reveal_strlit("\\");
            assert("\\"@ =~= seq!['\\']);
        }
        if str_eq(self.path.as_str(), "\\") {
            return None;
        }
        let n = self.path.unicode_len();
        let parent_path: String;
        match rfind_backslash(self.path.as_str()) {
            Some(idx) => {
                if idx == 0 {
                    parent_path = "\\".to_owned();
                } else {
                    parent_path = self.path.as_str().substring_char(0, idx).to_owned();
                    proof {
                        assert(self.path@.subrange(0, last_index_of(self.path@, '\\'))
                            =~= self.path@.take(last_index_of(self.path@, '\\')));
                    }
                }
            },
            None => {
                parent_path = "\\".to_owned();
            },
        }
        Some(
            DeviceStoragePath {
                device_name: self.device_name.clone(),
                storage_name: self.storage_name.clone(),
                path: parent_path,
            },
        )
    }
}

/// The index of the last backslash of `s`, or `None`.
fn rfind_backslash(s: &str) -> (r: Option<usize>)
    ensures
        match r {
            None => last_index_of(s@, '\\') < 0,
            Some(i) => i == last_index_of(s@, '\\') && i < s@.len(),
        },
{
    let n = s.unicode_len();
    let mut i = n;
    proof {
        assert(s@.take(n as int) =~= s@);
    }
    while i > 0
        invariant
            i <= n,
            n == s@.len(),
            last_index_of(s@, '\\') == last_index_of(s@.take(i as int), '\\'),
        decreases i,
    {
        i = i - 1;
        let c = s.get_char(i);
        proof {
            lemma_take_last(s@, i as int);
        }
        if c == '\\' {
            proof {
                lemma_last_index_of(s@, '\\');
            }
            return Some(i);
        }
    }
    proof {
        assert(s@.take(0) =~= Seq::<char>::empty());
    }
    None
}

/// Cutting a prefix one shorter drops its last character from the
/// last-index search.
proof fn lemma_take_last(s: Seq<char>, i: int)
    requires
        0 <= i < s.len(),
    ensures
        s[i] == '\\' ==> last_index_of(s.take(i + 1), '\\') == i,
        s[i] != '\\' ==> last_index_of(s.take(i + 1), '\\') == last_index_of(s.take(i), '\\'),
{
    assert(s.take(i + 1).len() == i + 1);
    assert(s.take(i + 1)[i] == s[i]);
    assert(s.take(i + 1).drop_last() =~= s.take(i));
}

/// Rewrites a path into its canonical backslash form.
pub fn normalize_separators(p: &str) -> (r: String)
    ensures
        r@ == normalize_path(p@),
{
    let seps: [char; 2] = ['/', '\\'];
    proof {
        assert(seps@ =~= path_seps());
    }
    let comps = split_str(p, &seps);
    let ghost cs = comps.deep_view();
    let mut out = String::new();
    let mut pushed: bool = false;
    let cn = comps.len();
    proof {
        assert(cs.take(0) =~= Seq::<Seq<char>>::empty());
        assert(out@ =~= joined_components(nonempty(cs.take(0))));
    }
    for k in 0..cn
        invariant
            cn == comps@.len(),
            cs == comps.deep_view(),
            cs == split_components(p@, path_seps()),
            out@ =~= joined_components(nonempty(cs.take(k as int))),
            pushed == (nonempty(cs.take(k as int)).len() > 0),
    {
        let comp = &comps[k];
        proof {
            assert(cs[k as int] == comps@[k as int]@);
            assert(cs.take(k + 1) =~= cs.take(k as int).push(cs[k as int]));
            crate::split::lemma_nonempty_push(cs.take(k as int), cs[k as int]);
        }
        if comp.unicode_len() > 0 {
            push_char(&mut out, '\\');
            out.append(comp.as_str());
            pushed = true;
            proof {
                lemma_joined_push(nonempty(cs.take(k as int)), cs[k as int]);
                assert(out@ =~= joined_components(nonempty(cs.take(k + 1))));
            }
        }
    }
    proof {
        assert(cs.take(cn as int) =~= cs);
    }
    if !pushed {
        push_char(&mut out, '\\');
        proof {
            assert(out@ =~= seq!['\\']);
        }
    }
    out
}

/// Joining one more component appends a backslash and the component.
proof fn lemma_joined_push(ne: Seq<Seq<char>>, x: Seq<char>)
    requires
        x.len() > 0,
    ensures
        joined_components(ne.push(x)) =~= joined_components(ne) + seq!['\\'] + x,
    decreases ne.len(),
{
    if ne.len() == 0 {
        assert(ne.push(x)[0] == x);
        assert(ne.push(x).skip(1) =~= Seq::<Seq<char>>::empty());
        assert(joined_components(Seq::<Seq<char>>::empty()) =~= Seq::<char>::empty());
        assert(joined_components(ne.push(x)) =~= seq!['\\'] + x + joined_components(
            Seq::<Seq<char>>::empty(),
        ));
        assert(joined_components(ne.push(x)) =~= seq!['\\'] + x);
    } else {
        assert(ne.push(x)[0] == ne[0]);
        assert(ne.push(x).skip(1) =~= ne.skip(1).push(x));
        lemma_joined_push(ne.skip(1), x);
        assert(joined_components(ne.push(x)) =~= seq!['\\'] + ne[0] + joined_components(
            ne.skip(1).push(x),
        ));
    }
}

/// A pair of source and destination path arguments.
#[derive(Debug)]
pub struct Paths {
    pub src: String,
    pub dest: String,
}

/// A character absent from a sequence is absent from every part of its
/// split.
proof fn lemma_split_parts_keep(s: Seq<char>, seps: Seq<char>, c: char)
    requires
        forall|j: int| 0 <= j < s.len() ==> s[j] != c,
    ensures
        forall|i: int, j: int|
            0 <= i < split_components(s, seps).len() && 0 <= j < split_components(s, seps)[i].len()
                ==> split_components(s, seps)[i][j] != c,
    decreases s.len(),
{
    crate::split::lemma_first_sep_bounds(s, seps);
    let k = crate::split::first_sep(s, seps);
    let parts = split_components(s, seps);
    if k < 0 {
        assert(parts[0] == s);
    } else {
        assert(forall|j: int|
            0 <= j < s.skip(k + 1).len() ==> #[trigger] s.skip(k + 1)[j] == s[j + k + 1]);
        lemma_split_parts_keep(s.skip(k + 1), seps, c);
        let sub = split_components(s.skip(k + 1), seps);
        assert(parts[0] == s.take(k));
        assert(forall|j: int| 0 <= j < k ==> s.take(k)[j] == s[j]);
        assert(forall|i: int| 0 <= i < sub.len() ==> parts[i + 1] == sub[i]);
    }
}

/// Joining components free of a non-backslash character keeps it absent.
proof fn lemma_joined_keep(ne: Seq<Seq<char>>, c: char)
    requires
        c != '\\',
        forall|i: int, j: int| 0 <= i < ne.len() && 0 <= j < ne[i].len() ==> ne[i][j] != c,
    ensures
        forall|j: int| 0 <= j < joined_components(ne).len() ==> joined_components(ne)[j] != c,
    decreases ne.len(),
{
    if ne.len() > 0 {
        assert(forall|i: int, j: int|
            0 <= i < ne.skip(1).len() && 0 <= j < ne.skip(1)[i].len() ==> ne.skip(1)[i][j]
                != c) by {
            assert(forall|i: int| 0 <= i < ne.skip(1).len() ==> ne.skip(1)[i] == ne[i + 1]);
        }
        lemma_joined_keep(ne.skip(1), c);
        let whole = joined_components(ne);
        assert(whole =~= seq!['\\'] + ne[0] + joined_components(ne.skip(1)));
        assert forall|j: int| 0 <= j < whole.len() implies whole[j] != c by {
            if j == 0 {
            } else if j < 1 + ne[0].len() {
                assert(whole[j] == ne[0][j - 1]);
            } else {
                assert(whole[j] == joined_components(ne.skip(1))[j - 1 - ne[0].len()]);
            }
        }
    }
}

/// Concatenation counts separators additively.
proof fn lemma_count_concat(x: Seq<char>, y: Seq<char>, seps: Seq<char>)
    ensures
        count_seps(x + y, seps) == count_seps(x, seps) + count_seps(y, seps),
{
    crate::split::lemma_count_additive(x + y, x.len() as int, seps);
    assert((x + y).take(x.len() as int) =~= x);
    assert((x + y).skip(x.len() as int) =~= y);
}

/// Splitting a sequence of the form `head + sep + tail` cuts exactly at
/// that separator when the head is separator-free.
proof fn lemma_split_head(head: Seq<char>, sep: char, tail: Seq<char>, seps: Seq<char>)
    requires
        is_sep(sep, seps),
        forall|j: int| 0 <= j < head.len() ==> !is_sep(head[j], seps),
    ensures
        split_components(head + seq![sep] + tail, seps) == seq![head] + split_components(
            tail,
            seps,
        ),
{
    let s = head + seq![sep] + tail;
    assert(s[head.len() as int] == sep);
    assert(forall|j: int| 0 <= j < head.len() ==> s[j] == head[j]);
    crate::split::lemma_first_sep_is(s, seps, head.len() as int);
    assert(s.take(head.len() as int) =~= head);
    assert(s.skip(head.len() as int + 1) =~= tail);
    assert(split_components(s, seps) =~= seq![head] + split_components(tail, seps));
}

/// Splitting the backslash form `name + joined(rest)` back at the path
/// separators recovers exactly the components it was joined from.
proof fn lemma_split_of_joined_tail(ne: Seq<Seq<char>>)
    requires
        ne.len() > 0,
        forall|i: int| 0 <= i < ne.len() ==> ne[i].len() > 0,
        forall|i: int, j: int|
            0 <= i < ne.len() && 0 <= j < ne[i].len() ==> !is_sep(ne[i][j], path_seps()),
    ensures
        nonempty(split_components(ne[0] + joined_components(ne.skip(1)), path_seps())) =~= ne,
    decreases ne.len(),
{
    let head = ne[0];
    let rest = ne.skip(1);
    if rest.len() == 0 {
        assert(joined_components(rest) =~= Seq::<char>::empty());
        assert(head + joined_components(rest) =~= head);
        crate::split::lemma_split_no_sep(head, path_seps());
        crate::split::lemma_nonempty_singleton(head);
        assert(ne =~= seq![head]);
    } else {
        assert(joined_components(rest) =~= seq!['\\'] + rest[0] + joined_components(rest.skip(1)));
        let tail = rest[0] + joined_components(rest.skip(1));
        assert(head + joined_components(rest) =~= head + seq!['\\'] + tail);
        assert(is_sep('\\', path_seps())) by {
            assert(path_seps()[1] == '\\');
        }
        lemma_split_head(head, '\\', tail, path_seps());
        assert(forall|i: int| 0 <= i < rest.len() ==> rest[i] == ne[i + 1]);
        lemma_split_of_joined_tail(rest);
        crate::split::lemma_nonempty_concat(seq![head], split_components(tail, path_seps()));
        crate::split::lemma_nonempty_singleton(head);
        assert(nonempty(split_components(head + joined_components(rest), path_seps())) =~= seq![
            head,
        ] + rest);
        assert(seq![head] + rest =~= ne);
    }
}

/// Normalizing a path twice is the same as normalizing it once.
pub proof fn lemma_normalize_idempotent(p: Seq<char>)
    ensures
        normalize_path(normalize_path(p)) == normalize_path(p),
{
    let ne = nonempty(split_components(p, path_seps()));
    crate::split::lemma_nonempty_elements(split_components(p, path_seps()));
    crate::split::lemma_split_parts_no_sep(p, path_seps());
    if ne.len() == 0 {
        let root = seq!['\\'];
        assert(is_sep(root[0], path_seps())) by {
            assert(path_seps()[1] == '\\');
        }
        crate::split::lemma_first_sep_is(root, path_seps(), 0);
        assert(root.take(0) =~= Seq::<char>::empty());
        assert(root.skip(1) =~= Seq::<char>::empty());
        crate::split::lemma_split_no_sep(Seq::<char>::empty(), path_seps());
        assert(split_components(root, path_seps()) =~= seq![
            Seq::<char>::empty(),
            Seq::<char>::empty(),
        ]);
        assert(nonempty(split_components(root, path_seps())) =~= Seq::<Seq<char>>::empty()) by {
            let e = Seq::<char>::empty();
            assert(Seq::<Seq<char>>::empty().push(e) =~= seq![e]);
            assert(seq![e].push(e) =~= seq![e, e]);
            crate::split::lemma_nonempty_singleton(e);
            crate::split::lemma_nonempty_push(seq![e], e);
        }
    } else {
        assert(forall|i: int, j: int|
            0 <= i < ne.len() && 0 <= j < ne[i].len() ==> !is_sep(ne[i][j], path_seps())) by {
            assert(forall|i: int|
                0 <= i < ne.len() ==> split_components(p, path_seps()).contains(ne[i]));
            assert forall|i: int, j: int|
                0 <= i < ne.len() && 0 <= j < ne[i].len() implies !is_sep(
                ne[i][j],
                path_seps(),
            ) by {
                let parts = split_components(p, path_seps());
                let k = choose|k: int| 0 <= k < parts.len() && parts[k] == ne[i];
            }
        }
        let joined = joined_components(ne);
        assert(joined =~= seq!['\\'] + (ne[0] + joined_components(ne.skip(1))));
        let tail = ne[0] + joined_components(ne.skip(1));
        assert(is_sep('\\', path_seps())) by {
            assert(path_seps()[1] == '\\');
        }
        assert(joined =~= Seq::<char>::empty() + seq!['\\'] + tail);
        lemma_split_head(Seq::<char>::empty(), '\\', tail, path_seps());
        lemma_split_of_joined_tail(ne);
        crate::split::lemma_nonempty_concat(
            seq![Seq::<char>::empty()],
            split_components(tail, path_seps()),
        );
        crate::split::lemma_nonempty_singleton(Seq::<char>::empty());
        assert(nonempty(split_components(joined, path_seps())) =~= ne);
    }
}

/// Law: a well-formed three-part address survives a parse / print cycle:
/// printing the parsed value and parsing the print yields the same parsed
/// value, so a second cycle prints the same string.
pub proof fn lemma_parse_full_path_roundtrip(s: Seq<char>)
    requires
        count_seps(s, colon_sep()) == 2,
    ensures
        ({
            let parts = colon_parts(s);
            let full = parts[0] + seq![':'] + parts[1] + seq![':'] + normalize_path(parts[2]);
            &&& count_seps(full, colon_sep()) == 2
            &&& colon_parts(full).len() == 3
            &&& colon_parts(full)[0] == parts[0]
            &&& colon_parts(full)[1] == parts[1]
            &&& normalize_path(colon_parts(full)[2]) == normalize_path(parts[2])
        }),
{
    let parts = colon_parts(s);
    lemma_split_len(s, colon_sep());
    crate::split::lemma_split_parts_no_sep(s, colon_sep());
    let norm = normalize_path(parts[2]);
    let full = parts[0] + seq![':'] + parts[1] + seq![':'] + norm;

    assert(forall|c: char| is_sep(c, colon_sep()) ==> c == ':') by {
        assert(colon_sep().len() == 1);
    }
    // the normalized path holds no colon
    let ne = nonempty(split_components(parts[2], path_seps()));
    assert(forall|j: int| 0 <= j < parts[2].len() ==> parts[2][j] != ':') by {
        assert(forall|j: int| 0 <= j < parts[2].len() ==> !is_sep(parts[2][j], colon_sep()));
        assert(is_sep(':', colon_sep())) by {
            assert(colon_sep()[0] == ':');
        }
    }
    lemma_split_parts_keep(parts[2], path_seps(), ':');
    crate::split::lemma_nonempty_elements(split_components(parts[2], path_seps()));
    assert(forall|i: int, j: int| 0 <= i < ne.len() && 0 <= j < ne[i].len() ==> ne[i][j] != ':')
        by {
        assert forall|i: int, j: int| 0 <= i < ne.len() && 0 <= j < ne[i].len() implies ne[i][j]
            != ':' by {
            let ps = split_components(parts[2], path_seps());
            let k = choose|k: int| 0 <= k < ps.len() && ps[k] == ne[i];
        }
    }
    assert(forall|j: int| 0 <= j < norm.len() ==> norm[j] != ':') by {
        if ne.len() == 0 {
            assert(norm =~= seq!['\\']);
        } else {
            lemma_joined_keep(ne, ':');
        }
    }
    assert(forall|j: int| 0 <= j < norm.len() ==> !is_sep(norm[j], colon_sep()));
    assert(forall|j: int| 0 <= j < parts[0].len() ==> !is_sep(parts[0][j], colon_sep()));
    assert(forall|j: int| 0 <= j < parts[1].len() ==> !is_sep(parts[1][j], colon_sep()));

    // the printed address has exactly two colons again
    assert(is_sep(':', colon_sep())) by {
        assert(colon_sep()[0] == ':');
    }
    crate::split::lemma_count_no_sep(parts[0], colon_sep());
    crate::split::lemma_count_no_sep(parts[1], colon_sep());
    crate::split::lemma_count_no_sep(norm, colon_sep());
    assert(count_seps(seq![':'], colon_sep()) == 1) by {
        assert(seq![':'][0] == ':');
        assert(seq![':'].skip(1) =~= Seq::<char>::empty());
        assert(count_seps(Seq::<char>::empty(), colon_sep()) == 0);
    }
    lemma_count_concat(parts[0], seq![':'], colon_sep());
    lemma_count_concat(parts[0] + seq![':'], parts[1], colon_sep());
    lemma_count_concat(parts[0] + seq![':'] + parts[1], seq![':'], colon_sep());
    lemma_count_concat(parts[0] + seq![':'] + parts[1] + seq![':'], norm, colon_sep());

    // and splits back into the same three parts
    assert(full =~= parts[0] + seq![':'] + (parts[1] + seq![':'] + norm));
    lemma_split_head(parts[0], ':', parts[1] + seq![':'] + norm, colon_sep());
    lemma_split_head(parts[1], ':', norm, colon_sep());
    crate::split::lemma_split_no_sep(norm, colon_sep());
    lemma_split_len(full, colon_sep());
    assert(colon_parts(full) =~= seq![parts[0], parts[1], norm]);
    lemma_normalize_idempotent(parts[2]);
}

} // verus!
