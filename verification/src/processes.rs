//! The list of running processes: kept sorted by name, refreshed on a
//! timer, searched by the process selector.
use vstd::prelude::*;
use crate::text;

verus! {

/// One running process.
#[derive(Clone)]
pub struct ProcessRow {
    pub pid: u32,
    pub name: String,
    pub exe: String,
    pub parent_pid: Option<u32>,
}

impl ProcessRow {
    /// A copy of the row.
    pub fn clone_row(&self) -> (r: Self)
        ensures
            r == *self,
    {
        ProcessRow {
            pid: self.pid,
            name: self.name.clone(),
            exe: self.exe.clone(),
            parent_pid: self.parent_pid,
        }
    }
}

impl Default for ProcessRow {
    fn default() -> (r: Self)
        ensures
            r.pid == 0,
            r.name@ == Seq::<char>::empty(),
            r.exe@ == Seq::<char>::empty(),
            r.parent_pid is None,
    {
        ProcessRow { pid: 0, name: String::new(), exe: String::new(), parent_pid: None }
    }
}

// ---------------------------------------------------------------------------
// Ordering by name
// ---------------------------------------------------------------------------

/// `a` comes before `b`: the lexicographic order of their chars by code
/// point, which is the order of `String`s (byte order of UTF-8 is code
/// point order).
pub open spec fn name_less(a: Seq<char>, b: Seq<char>) -> bool
    decreases a.len(),
{
    if a.len() == 0 {
        b.len() > 0
    } else if b.len() == 0 {
        false
    } else if a[0] != b[0] {
        (a[0] as u32) < (b[0] as u32)
    } else {
        name_less(a.drop_first(), b.drop_first())
    }
}

pub proof fn lemma_name_less_irreflexive(a: Seq<char>)
    ensures
        !name_less(a, a),
    decreases a.len(),
{
    if a.len() > 0 {
        lemma_name_less_irreflexive(a.drop_first());
    }
}

pub proof fn lemma_name_less_transitive(a: Seq<char>, b: Seq<char>, c: Seq<char>)
    requires
        name_less(a, b),
        name_less(b, c),
    ensures
        name_less(a, c),
    decreases a.len(),
{
    if a.len() > 0 && b.len() > 0 && c.len() > 0 && a[0] == b[0] && b[0] == c[0] {
        lemma_name_less_transitive(a.drop_first(), b.drop_first(), c.drop_first());
    }
}

/// Whether `a` comes before `b`.
pub fn chars_less(a: &Vec<char>, b: &Vec<char>) -> (r: bool)
    ensures
        r == name_less(a@, b@),
{
    let mut i: usize = 0;
    assert(a@.skip(0) == a@ && b@.skip(0) == b@);
    while i < a.len() && i < b.len() && a[i] == b[i]
        invariant
            i <= a@.len(),
            i <= b@.len(),
            name_less(a@, b@) == name_less(a@.skip(i as int), b@.skip(i as int)),
        decreases a@.len() - i,
    {
        assert(a@.skip(i as int).drop_first() == a@.skip(i + 1));
        assert(b@.skip(i as int).drop_first() == b@.skip(i + 1));
        i += 1;
    }
    if i == a.len() {
        i < b.len()
    } else if i == b.len() {
        false
    } else {
        (a[i] as u32) < (b[i] as u32)
    }
}

/// `out` is `rows` sorted by name, equal names keeping their order: every
/// row of `out` is the row of `rows` at `origin`, each row of `rows` once,
/// names do not decrease, and rows of equal name come in the order they
/// had.
pub open spec fn stably_sorted_by_name(out: Seq<ProcessRow>, rows: Seq<ProcessRow>, origin: Seq<int>) -> bool {
    &&& out.len() == rows.len()
    &&& origin.len() == out.len()
    &&& forall|k: int| 0 <= k < origin.len() ==> 0 <= #[trigger] origin[k] < rows.len()
    &&& forall|k: int, l: int| 0 <= k < l < origin.len() ==> origin[k] != origin[l]
    &&& forall|k: int| 0 <= k < out.len() ==> #[trigger] out[k] == rows[origin[k]]
    &&& forall|k: int, l: int|
        0 <= k < l < out.len() ==> !name_less(#[trigger] out[l].name@, #[trigger] out[k].name@)
    &&& forall|k: int, l: int|
        0 <= k < l < out.len() && #[trigger] out[k].name@ == #[trigger] out[l].name@ ==> origin[k]
            < origin[l]
}

/// `rows` sorted by name, as a stable sort orders them.
pub fn sort_by_name(rows: Vec<ProcessRow>) -> (out: Vec<ProcessRow>)
    ensures
        exists|origin: Seq<int>| stably_sorted_by_name(out@, rows@, origin),
{
    let ghost all = rows@;
    let mut out: Vec<ProcessRow> = Vec::new();
    let mut keys: Vec<Vec<char>> = Vec::new();
    let ghost mut origin: Seq<int> = Seq::empty();
    let mut i: usize = 0;
    let n = rows.len();
    for row in it: rows.into_iter()
        invariant
            i == it.index(),
            n == all.len(),
            it.seq() == all,
            out@.len() == i,
            keys@.len() == i,
            origin.len() == i,
            forall|k: int| 0 <= k < i ==> (#[trigger] keys@[k])@ == out@[k].name@,
            forall|k: int| 0 <= k < origin.len() ==> 0 <= #[trigger] origin[k] < i,
            forall|k: int, l: int| 0 <= k < l < origin.len() ==> origin[k] != origin[l],
            forall|k: int| 0 <= k < i ==> #[trigger] out@[k] == all[origin[k]],
            forall|k: int, l: int|
                0 <= k < l < i ==> !name_less(#[trigger] out@[l].name@, #[trigger] out@[k].name@),
            forall|k: int, l: int|
                0 <= k < l < i && #[trigger] out@[k].name@ == #[trigger] out@[l].name@ ==> origin[k]
                    < origin[l],
    {
        let key = text::chars_of(row.name.as_str());
        let mut j: usize = 0;
        while j < out.len() && !chars_less(&key, &keys[j])
            invariant
                j <= out@.len() == keys@.len(),
                forall|k: int| 0 <= k < j ==> !name_less(key@, (#[trigger] keys@[k])@),
            decreases out@.len() - j,
        {
            j += 1;
        }
        let ghost before = out@;
        let ghost before_keys = keys@;
        let ghost before_origin = origin;
        proof {
            assert forall|l: int| j <= l < before.len() implies !name_less(
                (#[trigger] before[l]).name@,
                key@,
            ) by {
                assert(name_less(key@, before_keys[j as int]@));
                if name_less(before[l].name@, key@) {
                    lemma_name_less_transitive(before[l].name@, key@, before[j as int].name@);
                    if l == j {
                        lemma_name_less_irreflexive(before[l].name@);
                    }
                }
            }
            assert forall|l: int| j <= l < before.len() implies before[l].name@ != key@ by {
                assert(name_less(key@, before_keys[j as int]@));
                if before[l].name@ == key@ && l > j {
                    assert(!name_less(before[l].name@, before[j as int].name@));
                }
                if l == j {
                    lemma_name_less_irreflexive(key@);
                }
            }
        }
        out.insert(j, row);
        keys.insert(j, key);
        proof {
            origin = origin.insert(j as int, i as int);
            let ji = j as int;
            assert forall|k: int| 0 <= k < i + 1 implies (#[trigger] keys@[k])@ == out@[k].name@ by {
                if k < ji {
                    assert(keys@[k] == before_keys[k]);
                } else if k > ji {
                    assert(keys@[k] == before_keys[k - 1]);
                }
            }
            assert forall|k: int| 0 <= k < i + 1 implies #[trigger] out@[k] == all[origin[k]] by {
                if k < ji {
                    assert(out@[k] == before[k]);
                } else if k > ji {
                    assert(out@[k] == before[k - 1]);
                }
            }
            assert forall|k: int, l: int|
                0 <= k < l < i + 1 implies !name_less(#[trigger] out@[l].name@, #[trigger] out@[k].name@) by {
                if l < ji {
                    assert(out@[l] == before[l] && out@[k] == before[k]);
                } else if l == ji {
                    assert(out@[k] == before[k]);
                    assert(before_keys[k]@ == before[k].name@);
                    assert(!name_less(key@, before_keys[k]@));
                } else if k < ji {
                    assert(out@[l] == before[l - 1] && out@[k] == before[k]);
                } else if k == ji {
                    assert(out@[l] == before[l - 1]);
                    assert(!name_less(before[l - 1].name@, key@));
                } else {
                    assert(out@[l] == before[l - 1] && out@[k] == before[k - 1]);
                }
            }
            assert forall|k: int, l: int|
                0 <= k < l < i + 1 && #[trigger] out@[k].name@ == #[trigger] out@[l].name@ implies origin[k]
                    < origin[l] by {
                if l < ji {
                    assert(out@[l] == before[l] && out@[k] == before[k]);
                } else if l == ji {
                    assert(origin[l] == i);
                } else if k < ji {
                    assert(out@[l] == before[l - 1] && out@[k] == before[k]);
                } else if k == ji {
                    assert(out@[l] == before[l - 1]);
                } else {
                    assert(out@[l] == before[l - 1] && out@[k] == before[k - 1]);
                }
            }
        }
        i += 1;
    }
    assert(stably_sorted_by_name(out@, all, origin));
    out
}

// ---------------------------------------------------------------------------
// The process list
// ---------------------------------------------------------------------------

/// The first row of `rows` with the process id `pid`.
pub open spec fn find_by_pid(rows: Seq<ProcessRow>, pid: u32) -> Option<ProcessRow>
    decreases rows.len(),
{
    if rows.len() == 0 {
        None
    } else if rows[0].pid == pid {
        Some(rows[0])
    } else {
        find_by_pid(rows.drop_first(), pid)
    }
}

/// Some row of `rows` has the process id `pid`.
pub open spec fn has_pid(rows: Seq<ProcessRow>, pid: u32) -> bool {
    exists|i: int| 0 <= i < rows.len() && (#[trigger] rows[i]).pid == pid
}

/// The process `pid` is listed, and the parent of its first row is listed
/// too.
pub open spec fn parent_listed(rows: Seq<ProcessRow>, pid: Option<u32>) -> bool {
    match pid {
        None => false,
        Some(p) => match find_by_pid(rows, p) {
            Some(row) => match row.parent_pid {
                Some(parent) => has_pid(rows, parent),
                None => false,
            },
            None => false,
        },
    }
}

/// `find_by_pid` gives the first row with the id, `None` where no row has it.
proof fn lemma_find_by_pid_first(rows: Seq<ProcessRow>, pid: u32)
    ensures
        find_by_pid(rows, pid) is None <==> !has_pid(rows, pid),
        find_by_pid(rows, pid) matches Some(r) ==> exists|i: int|
            0 <= i < rows.len() && rows[i] == r && r.pid == pid && forall|j: int|
                0 <= j < i ==> (#[trigger] rows[j]).pid != pid,
    decreases rows.len(),
{
    if rows.len() > 0 {
        let rest = rows.drop_first();
        lemma_find_by_pid_first(rest, pid);
        if rows[0].pid != pid {
            if has_pid(rest, pid) {
                let i = choose|i: int| 0 <= i < rest.len() && (#[trigger] rest[i]).pid == pid;
                assert(rows[i + 1] == rest[i]);
            }
            if has_pid(rows, pid) {
                let i = choose|i: int| 0 <= i < rows.len() && (#[trigger] rows[i]).pid == pid;
                assert(rest[i - 1] == rows[i]);
            }
            if find_by_pid(rows, pid) is Some {
                let i = choose|i: int|
                    0 <= i < rest.len() && rest[i] == find_by_pid(rest, pid)->0 && find_by_pid(rest, pid)->0.pid
                        == pid && forall|j: int| 0 <= j < i ==> (#[trigger] rest[j]).pid != pid;
                assert(rows[i + 1] == rest[i]);
                assert forall|j: int| 0 <= j < i + 1 implies (#[trigger] rows[j]).pid != pid by {
                    if j > 0 {
                        assert(rows[j] == rest[j - 1]);
                    }
                }
            }
        } else {
            assert(rows[0].pid == pid);
        }
    }
}

/// Parent check: a process has a listed parent exactly when it is listed,
/// the first row with its id names a parent, and some row has that
/// parent's id; no process given, no parent.
pub proof fn lemma_parent_listed(rows: Seq<ProcessRow>, pid: Option<u32>)
    ensures
        pid is None ==> !parent_listed(rows, pid),
        parent_listed(rows, pid) <==> (pid matches Some(p) && exists|i: int, j: int|
            0 <= i < rows.len() && 0 <= j < rows.len() && #[trigger] rows[i].pid == p && (forall|m: int|
                0 <= m < i ==> (#[trigger] rows[m]).pid != p) && rows[i].parent_pid == Some(
                #[trigger] rows[j].pid,
            )),
{
    if let Some(p) = pid {
        lemma_find_by_pid_first(rows, p);
        if parent_listed(rows, pid) {
            let r = find_by_pid(rows, p)->0;
            let i = choose|i: int|
                0 <= i < rows.len() && rows[i] == r && r.pid == p && forall|j: int|
                    0 <= j < i ==> (#[trigger] rows[j]).pid != p;
            let q = r.parent_pid->0;
            let j = choose|j: int| 0 <= j < rows.len() && (#[trigger] rows[j]).pid == q;
            assert(rows[i].pid == p && rows[i].parent_pid == Some(rows[j].pid));
        }
        if exists|i: int, j: int|
            0 <= i < rows.len() && 0 <= j < rows.len() && #[trigger] rows[i].pid == p && (forall|m: int|
                0 <= m < i ==> (#[trigger] rows[m]).pid != p) && rows[i].parent_pid == Some(
                #[trigger] rows[j].pid,
            ) {
            let (i, j) = choose|i: int, j: int|
                0 <= i < rows.len() && 0 <= j < rows.len() && #[trigger] rows[i].pid == p && (forall|m: int|
                    0 <= m < i ==> (#[trigger] rows[m]).pid != p) && rows[i].parent_pid == Some(
                    #[trigger] rows[j].pid,
                );
            assert(has_pid(rows, p));
            let r = find_by_pid(rows, p)->0;
            let i2 = choose|i2: int|
                0 <= i2 < rows.len() && rows[i2] == r && r.pid == p && forall|m: int|
                    0 <= m < i2 ==> (#[trigger] rows[m]).pid != p;
            if i2 < i {
                assert(rows[i2].pid != p);
            }
            if i < i2 {
                assert(rows[i].pid != p);
            }
            assert(i == i2);
            assert(has_pid(rows, rows[j].pid));
        }
    }
}

/// The running processes, as last read, and the selector's state.
pub struct Processes {
    processes: Vec<ProcessRow>,
    pub selected_process: Option<u32>,
    pub search: String,
    pub last_update_time: u32,
    pub pending_scroll_to_pid: Option<u32>,
}

impl Default for Processes {
    fn default() -> (r: Self)
        ensures
            r.spec_rows() == Seq::<ProcessRow>::empty(),
            r.spec_selected() is None,
            r.spec_search() == Seq::<char>::empty(),
            r.spec_last_update() == 0,
            r.spec_pending_scroll() is None,
    {
        Processes {
            processes: Vec::new(),
            selected_process: None,
            search: String::new(),
            last_update_time: 0,
            pending_scroll_to_pid: None,
        }
    }
}

impl Processes {
    /// The processes as last read, sorted by name.
    pub closed spec fn spec_rows(&self) -> Seq<ProcessRow> {
        self.processes@
    }

    /// The selected process.
    pub closed spec fn spec_selected(&self) -> Option<u32> {
        self.selected_process
    }

    /// The search text of the selector.
    pub closed spec fn spec_search(&self) -> Seq<char> {
        self.search@
    }

    /// When the list was last asked for, in milliseconds.
    pub closed spec fn spec_last_update(&self) -> u32 {
        self.last_update_time
    }

    /// The process the selector should scroll to.
    pub closed spec fn spec_pending_scroll(&self) -> Option<u32> {
        self.pending_scroll_to_pid
    }

    /// Selects the process `selection`.
    pub fn set_selected(&mut self, selection: Option<u32>)
        ensures
            final(self).spec_selected() == selection,
            final(self).spec_rows() == old(self).spec_rows(),
            final(self).spec_search() == old(self).spec_search(),
            final(self).spec_last_update() == old(self).spec_last_update(),
            final(self).spec_pending_scroll() == old(self).spec_pending_scroll(),
    {
        self.selected_process = selection;
    }

    /// The processes as last read.
    pub fn rows(&self) -> (r: &Vec<ProcessRow>)
        ensures
            r@ == self.spec_rows(),
    {
        &self.processes
    }

    /// The search text of the selector.
    pub fn search(&self) -> (r: &String)
        ensures
            r@ == self.spec_search(),
    {
        &self.search
    }

    /// The selected process.
    pub fn selected(&self) -> (r: Option<u32>)
        ensures
            r == self.spec_selected(),
    {
        self.selected_process
    }

    /// Replaces the list with `rows`, sorted by name (a stable sort).
    pub fn refresh_processes(&mut self, rows: Vec<ProcessRow>)
        ensures
            exists|origin: Seq<int>| stably_sorted_by_name(final(self).spec_rows(), rows@, origin),
            final(self).spec_selected() == old(self).spec_selected(),
            final(self).spec_search() == old(self).spec_search(),
            final(self).spec_last_update() == old(self).spec_last_update(),
            final(self).spec_pending_scroll() == old(self).spec_pending_scroll(),
    {
        let ghost input = rows@;
        let sorted = sort_by_name(rows);
        let ghost origin = choose|origin: Seq<int>| stably_sorted_by_name(sorted@, input, origin);
        self.processes = sorted;
        assert(stably_sorted_by_name(self.spec_rows(), input, origin));
    }

    /// Whether the list has to be read again at `current` (milliseconds):
    /// it is empty, or more than 2 ms have passed since it was last asked for.
    pub fn should_refresh(&self, current: u32) -> (r: bool)
        requires
            self.spec_rows().len() == 0 || current >= self.spec_last_update(),
        ensures
            r == (self.spec_rows().len() == 0 || current - self.spec_last_update() > 2),
    {
        self.processes.len() == 0 || current - self.last_update_time > 2
    }

    /// The list, noting `current` as the time it was last asked for.
    pub fn get_processes(&mut self, current: u32) -> (r: &Vec<ProcessRow>)
        ensures
            r@ == old(self).spec_rows(),
            final(self).spec_rows() == old(self).spec_rows(),
            final(self).spec_last_update() == current,
            final(self).spec_selected() == old(self).spec_selected(),
            final(self).spec_search() == old(self).spec_search(),
            final(self).spec_pending_scroll() == old(self).spec_pending_scroll(),
    {
        self.last_update_time = current;
        &self.processes
    }

    /// Whether the process `pid` is listed and the parent of its first row
    /// is listed too.
    pub fn is_process_has_parent(&self, pid: Option<u32>) -> (r: bool)
        ensures
            r == parent_listed(self.spec_rows(), pid),
    {
        let p = match pid {
            None => {
                return false;
            },
            Some(p) => p,
        };
        let rows = &self.processes;
        let n = rows.len();
        let mut i: usize = 0;
        assert(rows@.skip(0) == rows@);
        while i < n && rows[i].pid != p
            invariant
                i <= n == rows@.len(),
                find_by_pid(rows@, p) == find_by_pid(rows@.skip(i as int), p),
            decreases n - i,
        {
            assert(rows@.skip(i as int).drop_first() == rows@.skip(i + 1));
            i += 1;
        }
        if i == n {
            return false;
        }
        assert(rows@.skip(i as int)[0] == rows@[i as int]);
        assert(find_by_pid(rows@, p) == Some(rows@[i as int]));
        let parent = match rows[i].parent_pid {
            None => {
                return false;
            },
            Some(q) => q,
        };
        let mut k: usize = 0;
        while k < n
            invariant
                k <= n == rows@.len(),
                rows@ == self.spec_rows(),
                pid == Some(p),
                find_by_pid(rows@, p) == Some(rows@[i as int]),
                rows@[i as int].parent_pid == Some(parent),
                forall|j: int| 0 <= j < k ==> (#[trigger] rows@[j]).pid != parent,
            decreases n - k,
        {
            if rows[k].pid == parent {
                assert(has_pid(rows@, parent));
                return true;
            }
            k += 1;
        }
        false
    }
}

} // verus!
