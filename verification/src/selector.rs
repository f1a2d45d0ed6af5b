//! What the process selector and the result table show: the search over
//! the process list, its grouping by name, and the labels of rows.
use vstd::prelude::*;
use crate::processes::{ProcessRow, Processes, name_less};
use crate::text;

verus! {

/// What `str::to_lowercase` makes of `s`. The Unicode case mapping is
/// left unstated: it takes tables to state.
pub uninterp spec fn lowercase_of(s: Seq<char>) -> Seq<char>;

/// `str::to_lowercase`: the lowercase form of `s`, as a function of `s`
/// alone (`lowercase_of`).
#[verifier::external_body]
fn to_lowercase(s: &str) -> (r: String)
    ensures
        r@ == lowercase_of(s@),
{
    s.to_lowercase()
}

/// `needle` occurs in `hay` (an empty needle occurs everywhere).
pub open spec fn contains_text(hay: Seq<char>, needle: Seq<char>) -> bool {
    exists|i: int|
        0 <= i <= hay.len() - needle.len() && #[trigger] hay.subrange(i, i + needle.len()) == needle
}

/// Whether `needle` occurs in `hay`.
pub fn contains_chars(hay: &Vec<char>, needle: &Vec<char>) -> (r: bool)
    ensures
        r == contains_text(hay@, needle@),
{
    let n = needle.len();
    let h = hay.len();
    if n > h {
        return false;
    }
    let mut i: usize = 0;
    while i <= h - n
        invariant
            n == needle@.len(),
            h == hay@.len(),
            n <= h,
            i <= h - n + 1,
            forall|j: int| 0 <= j < i ==> #[trigger] hay@.subrange(j, j + n) != needle@,
        decreases h - n + 1 - i,
    {
        let mut k: usize = 0;
        while k < n && hay[i + k] == needle[k]
            invariant
                n == needle@.len(),
                h == hay@.len(),
                i + n <= h,
                k <= n,
                forall|m: int| 0 <= m < k ==> hay@[i + m] == needle@[m],
            decreases n - k,
        {
            k += 1;
        }
        if k == n {
            assert(hay@.subrange(i as int, i + n) == needle@);
            return true;
        }
        assert(hay@.subrange(i as int, i + n)[k as int] != needle@[k as int]);
        i += 1;
    }
    false
}

/// The search text as the selector compares it: trimmed and lowercase.
pub open spec fn search_query(search: Seq<char>) -> Seq<char> {
    lowercase_of(text::trimmed(search))
}

/// A process that the selector lists for `query`: every process where the
/// query is empty, else those whose lowercase name or executable path, or
/// whose process id in decimal, holds the query.
pub open spec fn process_matches(p: ProcessRow, query: Seq<char>) -> bool {
    ||| query.len() == 0
    ||| contains_text(lowercase_of(p.name@), query)
    ||| contains_text(lowercase_of(p.exe@), query)
    ||| contains_text(text::decimal_digits(p.pid as nat), query)
}

/// Whether the selector lists `p` for `query`.
pub fn matches_query(p: &ProcessRow, query: &Vec<char>) -> (r: bool)
    ensures
        r == process_matches(*p, query@),
{
    if query.len() == 0 {
        return true;
    }
    let name = text::chars_of(to_lowercase(p.name.as_str()).as_str());
    if contains_chars(&name, query) {
        return true;
    }
    let exe = text::chars_of(to_lowercase(p.exe.as_str()).as_str());
    if contains_chars(&exe, query) {
        return true;
    }
    let mut pid_text = String::new();
    text::push_decimal_digits(&mut pid_text, p.pid as u64);
    let pid = text::chars_of(pid_text.as_str());
    contains_chars(&pid, query)
}

/// The processes named `name` that are listed for `query`, in list order.
pub open spec fn members_named(rows: Seq<ProcessRow>, name: Seq<char>, query: Seq<char>) -> Seq<ProcessRow>
    decreases rows.len(),
{
    if rows.len() == 0 {
        seq![]
    } else {
        let prev = members_named(rows.drop_last(), name, query);
        if rows.last().name@ == name && process_matches(rows.last(), query) {
            prev.push(rows.last())
        } else {
            prev
        }
    }
}

/// The processes of one name that the selector lists together.
pub struct ProcessGroup {
    pub name: String,
    pub members: Vec<ProcessRow>,
}

/// `groups` are the processes of `rows` listed for `query`, grouped by
/// name: one group per name, in name order, each holding the processes of
/// that name in list order.
pub open spec fn grouped(groups: Seq<ProcessGroup>, rows: Seq<ProcessRow>, query: Seq<char>) -> bool {
    &&& forall|k: int, l: int|
        0 <= k < l < groups.len() ==> name_less(#[trigger] groups[k].name@, #[trigger] groups[l].name@)
    &&& forall|k: int|
        0 <= k < groups.len() ==> (#[trigger] groups[k]).members@ == members_named(
            rows,
            groups[k].name@,
            query,
        )
    &&& forall|k: int| 0 <= k < groups.len() ==> (#[trigger] groups[k]).members@.len() > 0
    &&& forall|i: int|
        0 <= i < rows.len() && process_matches(#[trigger] rows[i], query) ==> exists|k: int|
            0 <= k < groups.len() && (#[trigger] groups[k]).name@ == rows[i].name@
}

proof fn lemma_name_less_total(a: Seq<char>, b: Seq<char>)
    requires
        a != b,
        !name_less(a, b),
    ensures
        name_less(b, a),
    decreases a.len(),
{
    if a.len() > 0 && b.len() > 0 && a[0] == b[0] {
        assert(a.drop_first() != b.drop_first()) by {
            if a.drop_first() == b.drop_first() {
                assert(a == seq![a[0]] + a.drop_first());
                assert(b == seq![b[0]] + b.drop_first());
            }
        }
        lemma_name_less_total(a.drop_first(), b.drop_first());
    } else if a.len() == 0 {
        assert(b.len() == 0);
        assert(a == b);
    } else if b.len() > 0 {
        vstd::utf8::char_u32_cast(a[0], a[0] as u32);
        vstd::utf8::char_u32_cast(b[0], b[0] as u32);
    }
}

/// Whether two char sequences are equal.
fn chars_equal(a: &Vec<char>, b: &Vec<char>) -> (r: bool)
    ensures
        r == (a@ == b@),
{
    if a.len() != b.len() {
        return false;
    }
    let mut k: usize = 0;
    while k < a.len()
        invariant
            k <= a@.len() == b@.len(),
            forall|j: int| 0 <= j < k ==> a@[j] == b@[j],
        decreases a@.len() - k,
    {
        if a[k] != b[k] {
            return false;
        }
        k += 1;
    }
    assert(a@ == b@);
    true
}

proof fn lemma_no_members(rows: Seq<ProcessRow>, name: Seq<char>, query: Seq<char>)
    requires
        forall|i: int|
            0 <= i < rows.len() ==> !((#[trigger] rows[i]).name@ == name && process_matches(
                rows[i],
                query,
            )),
    ensures
        members_named(rows, name, query) == Seq::<ProcessRow>::empty(),
    decreases rows.len(),
{
    if rows.len() > 0 {
        assert forall|i: int|
            0 <= i < rows.drop_last().len() implies !((#[trigger] rows.drop_last()[i]).name@ == name
            && process_matches(rows.drop_last()[i], query)) by {
            assert(rows.drop_last()[i] == rows[i]);
        }
        lemma_no_members(rows.drop_last(), name, query);
        assert(rows.last() == rows[rows.len() - 1]);
    }
}

impl Processes {
    /// The processes listed for the search text, grouped by name in name
    /// order, as the selector shows them.
    pub fn search_groups(&self) -> (groups: Vec<ProcessGroup>)
        ensures
            grouped(groups@, self.spec_rows(), search_query(self.spec_search())),
    {
        let trimmed = text::trim_str(self.search().as_str());
        let query = text::chars_of(to_lowercase(text::string_from_chars(&trimmed).as_str()).as_str());
        let ghost q = query@;
        let rows = self.rows();
        let ghost all = rows@;
        let mut groups: Vec<ProcessGroup> = Vec::new();
        let mut keys: Vec<Vec<char>> = Vec::new();
        let n = rows.len();
        let mut i: usize = 0;
        while i < n
            invariant
                i <= n == all.len(),
                rows@ == all,
                query@ == q,
                keys@.len() == groups@.len(),
                forall|k: int| 0 <= k < keys@.len() ==> (#[trigger] keys@[k])@ == groups@[k].name@,
                grouped(groups@, all.take(i as int), q),
            decreases n - i,
        {
            let ghost prefix = all.take(i as int);
            let ghost next = all.take(i + 1);
            assert(next.drop_last() == prefix);
            assert(next.last() == all[i as int]);
            let row = &rows[i];
            if matches_query(row, &query) {
                let key = text::chars_of(row.name.as_str());
                let mut j: usize = 0;
                while j < keys.len() && crate::processes::chars_less(&keys[j], &key)
                    invariant
                        j <= keys@.len(),
                        forall|k: int| 0 <= k < j ==> name_less((#[trigger] keys@[k])@, key@),
                    decreases keys@.len() - j,
                {
                    j += 1;
                }
                let ghost before = groups@;
                let ghost before_keys = keys@;
                let ghost r = all[i as int];
                assert(key@ == r.name@);
                if j < keys.len() && chars_equal(&keys[j], &key) {
                    let mut g = groups.remove(j);
                    g.members.push(row.clone_row());
                    groups.insert(j, g);
                    proof {
                        let ji = j as int;
                        assert(groups@ == before.update(ji, groups@[ji]));
                        assert(keys@ == before_keys);
                        assert forall|k: int|
                            0 <= k < groups@.len() implies (#[trigger] groups@[k]).members@
                            == members_named(next, groups@[k].name@, q) by {
                            if k != ji {
                                assert(groups@[k] == before[k]);
                                if before[k].name@ == key@ {
                                    if k < ji {
                                        assert(name_less(before[k].name@, before[ji].name@));
                                    } else {
                                        assert(name_less(before[ji].name@, before[k].name@));
                                    }
                                    crate::processes::lemma_name_less_irreflexive(key@);
                                }
                            }
                        }
                        assert forall|m: int|
                            0 <= m < next.len() && process_matches(#[trigger] next[m], q) implies exists|k: int|
                                0 <= k < groups@.len() && (#[trigger] groups@[k]).name@ == next[m].name@ by {
                            if m < i {
                                assert(next[m] == prefix[m]);
                                let k = choose|k: int| 0 <= k < before.len() && (#[trigger] before[k]).name@ == prefix[m].name@;
                                assert(groups@[k].name@ == before[k].name@);
                            } else {
                                assert(groups@[ji].name@ == next[m].name@);
                            }
                        }
                    }
                } else {
                    let mut members: Vec<ProcessRow> = Vec::new();
                    members.push(row.clone_row());
                    let name = row.name.clone();
                    groups.insert(j, ProcessGroup { name, members });
                    keys.insert(j, key);
                    proof {
                        let ji = j as int;
                        assert forall|k: int| ji <= k < before.len() implies name_less(key@, (#[trigger] before[k]).name@) by {
                            assert(before_keys[ji]@ == before[ji].name@);
                            assert(!name_less(before[ji].name@, key@));
                            assert(before[ji].name@ != key@);
                            lemma_name_less_total(before[ji].name@, key@);
                            if k > ji {
                                crate::processes::lemma_name_less_transitive(key@, before[ji].name@, before[k].name@);
                            }
                        }
                        assert forall|k: int| 0 <= k < ji implies name_less((#[trigger] before[k]).name@, key@) by {
                            assert(before_keys[k]@ == before[k].name@);
                        }
                        assert forall|m: int|
                            0 <= m < prefix.len() implies !((#[trigger] prefix[m]).name@ == key@ && process_matches(
                                prefix[m],
                                q,
                            )) by {
                            if prefix[m].name@ == key@ && process_matches(prefix[m], q) {
                                let k = choose|k: int| 0 <= k < before.len() && (#[trigger] before[k]).name@ == prefix[m].name@;
                                if k < ji {
                                    crate::processes::lemma_name_less_irreflexive(key@);
                                } else {
                                    crate::processes::lemma_name_less_irreflexive(key@);
                                }
                            }
                        }
                        lemma_no_members(prefix, key@, q);
                        assert forall|k: int| 0 <= k < keys@.len() implies (#[trigger] keys@[k])@ == groups@[k].name@ by {
                            if k < ji {
                                assert(keys@[k] == before_keys[k]);
                            } else if k > ji {
                                assert(keys@[k] == before_keys[k - 1]);
                            }
                        }
                        assert forall|k: int, l: int|
                            0 <= k < l < groups@.len() implies name_less(#[trigger] groups@[k].name@, #[trigger] groups@[l].name@) by {
                            if l < ji {
                                assert(groups@[k] == before[k] && groups@[l] == before[l]);
                            } else if l == ji {
                                assert(groups@[k] == before[k]);
                            } else if k < ji {
                                assert(groups@[k] == before[k] && groups@[l] == before[l - 1]);
                            } else if k == ji {
                                assert(groups@[l] == before[l - 1]);
                            } else {
                                assert(groups@[k] == before[k - 1] && groups@[l] == before[l - 1]);
                            }
                        }
                        assert forall|k: int|
                            0 <= k < groups@.len() implies (#[trigger] groups@[k]).members@
                            == members_named(next, groups@[k].name@, q) by {
                            if k < ji {
                                assert(groups@[k] == before[k]);
                                assert(name_less(before[k].name@, key@));
                                if before[k].name@ == key@ {
                                    crate::processes::lemma_name_less_irreflexive(key@);
                                }
                            } else if k > ji {
                                assert(groups@[k] == before[k - 1]);
                                assert(name_less(key@, before[k - 1].name@));
                                if before[k - 1].name@ == key@ {
                                    crate::processes::lemma_name_less_irreflexive(key@);
                                }
                            } else {
                                assert(groups@[k].members@ == seq![r]);
                                assert(Seq::<ProcessRow>::empty().push(r) == seq![r]);
                            }
                        }
                        assert forall|k: int| 0 <= k < groups@.len() implies (#[trigger] groups@[k]).members@.len() > 0 by {
                            if k < ji {
                                assert(groups@[k] == before[k]);
                            } else if k > ji {
                                assert(groups@[k] == before[k - 1]);
                            }
                        }
                        assert forall|m: int|
                            0 <= m < next.len() && process_matches(#[trigger] next[m], q) implies exists|k: int|
                                0 <= k < groups@.len() && (#[trigger] groups@[k]).name@ == next[m].name@ by {
                            if m < i {
                                assert(next[m] == prefix[m]);
                                let k = choose|k: int| 0 <= k < before.len() && (#[trigger] before[k]).name@ == prefix[m].name@;
                                if k < ji {
                                    assert(groups@[k] == before[k]);
                                } else {
                                    assert(groups@[k + 1] == before[k]);
                                }
                            } else {
                                assert(groups@[ji].name@ == next[m].name@);
                            }
                        }
                    }
                }
            } else {
                proof {
                    assert forall|k: int|
                        0 <= k < groups@.len() implies (#[trigger] groups@[k]).members@
                        == members_named(next, groups@[k].name@, q) by {}
                    assert forall|m: int|
                        0 <= m < next.len() && process_matches(#[trigger] next[m], q) implies exists|k: int|
                            0 <= k < groups@.len() && (#[trigger] groups@[k]).name@ == next[m].name@ by {
                        assert(next[m] == prefix[m]);
                    }
                }
            }
            i += 1;
        }
        assert(all.take(n as int) == all);
        groups
    }
}

/// Every process in `members_named(rows, name, query)` is a row of `rows`
/// named `name` that is listed for `query`.
proof fn lemma_members_named_sound(rows: Seq<ProcessRow>, name: Seq<char>, query: Seq<char>, x: ProcessRow)
    requires
        members_named(rows, name, query).contains(x),
    ensures
        x.name@ == name,
        process_matches(x, query),
    decreases rows.len(),
{
    if rows.len() > 0 {
        let prev = members_named(rows.drop_last(), name, query);
        if prev.contains(x) {
            lemma_members_named_sound(rows.drop_last(), name, query, x);
        } else {
            let w = choose|w: int| 0 <= w < members_named(rows, name, query).len() && members_named(rows, name, query)[w] == x;
            assert(w == prev.len());
        }
    }
}

/// Every row named `name` that is listed for `query` is in
/// `members_named(rows, name, query)`.
proof fn lemma_members_named_complete(rows: Seq<ProcessRow>, name: Seq<char>, query: Seq<char>, i: int)
    requires
        0 <= i < rows.len(),
        rows[i].name@ == name,
        process_matches(rows[i], query),
    ensures
        members_named(rows, name, query).contains(rows[i]),
    decreases rows.len(),
{
    let r = members_named(rows, name, query);
    if i == rows.len() - 1 {
        assert(r[r.len() - 1] == rows[i]);
    } else {
        lemma_members_named_complete(rows.drop_last(), name, query, i);
        let prev = members_named(rows.drop_last(), name, query);
        let w = choose|w: int| 0 <= w < prev.len() && prev[w] == rows.drop_last()[i];
        assert(r[w] == prev[w]);
    }
}

/// Search: with the groups that the selector shows for `search`, a process
/// is listed in the group of its name exactly when the search text,
/// trimmed and in lowercase, is empty or occurs in the process's lowercase
/// name, in its lowercase executable path, or in its process id written
/// in decimal.
pub proof fn lemma_search_lists_matching_processes(
    groups: Seq<ProcessGroup>,
    rows: Seq<ProcessRow>,
    search: Seq<char>,
    i: int,
)
    requires
        grouped(groups, rows, search_query(search)),
        0 <= i < rows.len(),
    ensures
        ({
            let q = lowercase_of(text::trimmed(search));
            let p = rows[i];
            (exists|k: int|
                0 <= k < groups.len() && (#[trigger] groups[k]).name@ == p.name@ && groups[k].members@.contains(p))
                <==> (q.len() == 0 || contains_text(lowercase_of(p.name@), q) || contains_text(
                lowercase_of(p.exe@),
                q,
            ) || contains_text(text::decimal_digits(p.pid as nat), q))
        }),
{
    let q = search_query(search);
    let p = rows[i];
    if exists|k: int|
        0 <= k < groups.len() && (#[trigger] groups[k]).name@ == p.name@ && groups[k].members@.contains(p) {
        let k = choose|k: int|
            0 <= k < groups.len() && (#[trigger] groups[k]).name@ == p.name@ && groups[k].members@.contains(p);
        assert(groups[k].members@ == members_named(rows, groups[k].name@, q));
        lemma_members_named_sound(rows, groups[k].name@, q, p);
    }
    if process_matches(p, q) {
        let k = choose|k: int| 0 <= k < groups.len() && (#[trigger] groups[k]).name@ == rows[i].name@;
        assert(groups[k].members@ == members_named(rows, groups[k].name@, q));
        lemma_members_named_complete(rows, groups[k].name@, q, i);
    }
}

/// `p` heads its group: it has no parent, or its parent is not in the group.
pub open spec fn is_root_in(members: Seq<ProcessRow>, p: ProcessRow) -> bool {
    match p.parent_pid {
        Some(parent) => !(exists|k: int| 0 <= k < members.len() && (#[trigger] members[k]).pid == parent),
        None => true,
    }
}

impl ProcessGroup {
    /// Whether `p` heads the group: it has no parent, or its parent is not
    /// in the group.
    pub fn is_root(&self, p: &ProcessRow) -> (r: bool)
        ensures
            r == is_root_in(self.members@, *p),
    {
        let parent = match p.parent_pid {
            None => {
                return true;
            },
            Some(q) => q,
        };
        let n = self.members.len();
        let mut k: usize = 0;
        while k < n
            invariant
                k <= n == self.members@.len(),
                p.parent_pid == Some(parent),
                forall|j: int| 0 <= j < k ==> (#[trigger] self.members@[j]).pid != parent,
            decreases n - k,
        {
            if self.members[k].pid == parent {
                assert(self.members@[k as int].pid == parent);
                return false;
            }
            k += 1;
        }
        true
    }
}

/// Group roots: a process with no parent heads its group; a process whose
/// parent is a member of the group does not; a process whose parent is
/// outside the group does.
pub proof fn lemma_group_roots(members: Seq<ProcessRow>, p: ProcessRow)
    ensures
        p.parent_pid is None ==> is_root_in(members, p),
        forall|k: int|
            0 <= k < members.len() && p.parent_pid == Some((#[trigger] members[k]).pid) ==> !is_root_in(
                members,
                p,
            ),
        (p.parent_pid matches Some(q) && forall|k: int| 0 <= k < members.len() ==> (#[trigger] members[k]).pid
            != q) ==> is_root_in(members, p),
{
}

/// The label of a process in the selector: its id in brackets and the name
/// of its executable, with a key mark after the processes that head their
/// group.
pub open spec fn label_text(pid: u32, exe_name: Seq<char>, is_root: bool) -> Seq<char> {
    "["@ + text::decimal_digits(pid as nat) + "] "@ + exe_name + if is_root {
        "  \u{1F511}"@
    } else {
        Seq::<char>::empty()
    }
}

/// The label of a process in the selector.
pub fn process_label(pid: u32, exe_name: &str, is_root: bool) -> (s: String)
    ensures
        s@ == label_text(pid, exe_name@, is_root),
{
    let mut s = text::string_of("[");
    text::push_decimal_digits(&mut s, pid as u64);
    text::push_str(&mut s, "] ");
    text::push_str(&mut s, exe_name);
    if is_root {
        text::push_str(&mut s, "  \u{1F511}");
    } else {
        assert(s@ + Seq::<char>::empty() == s@);
    }
    s
}

/// The char of a hexadecimal digit `0 <= d < 16`, in upper case.
pub open spec fn hex_char(d: int) -> char {
    if d < 10 {
        ((d + 48) as u8) as char
    } else {
        ((d + 55) as u8) as char
    }
}

/// The upper-case hexadecimal digits of `n`, without leading zeros.
pub open spec fn hex_digits(n: nat) -> Seq<char>
    decreases n,
{
    if n < 16 {
        seq![hex_char(n as int)]
    } else {
        hex_digits(n / 16).push(hex_char((n % 16) as int))
    }
}

fn push_hex_digits(s: &mut String, n: usize)
    ensures
        final(s)@ == old(s)@ + hex_digits(n as nat),
    decreases n,
{
    if n >= 16 {
        push_hex_digits(s, n / 16);
    }
    let d = (n % 16) as u8;
    let c: char = if d < 10 {
        (d + 48) as char
    } else {
        (d + 55) as char
    };
    assert(c == hex_char((n % 16) as int));
    text::string_push(s, c);
    if n < 16 {
        assert(old(s)@.push(c) == old(s)@ + seq![c]);
    } else {
        assert(old(s)@ + hex_digits((n / 16) as nat) + seq![c] == old(s)@ + hex_digits((n / 16) as nat).push(c));
    }
}

/// An address as the result table shows it: `0x` and upper-case hex digits.
pub fn format_address(address: usize) -> (s: String)
    ensures
        s@ == "0x"@ + hex_digits(address as nat),
{
    let mut s = text::string_of("0x");
    push_hex_digits(&mut s, address);
    s
}

/// The number of result rows to show that the text `input` asks for: a
/// decimal `usize` after trimming, at least 1; `None` where it is no such
/// number.
pub fn parse_display_count(input: &str) -> (r: Option<usize>)
    ensures
        match r {
            Some(n) => text::parse_integer(text::trimmed(input@), false, 0, usize::MAX as int) matches Some(v)
                && n == (if v < 1 { 1 } else { v }),
            None => text::parse_integer(text::trimmed(input@), false, 0, usize::MAX as int) is None,
        },
{
    let t = text::trim_str(input);
    match text::parse_integer_chars(&t, false, 0, usize::MAX as i128) {
        Some(v) => {
            let n = v as usize;
            Some(if n < 1 { 1 } else { n })
        },
        None => None,
    }
}

} // verus!
