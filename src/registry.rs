use vstd::prelude::*;

verus! {

/// The map from tool name to handle that a list of entries denotes; a later
/// entry for a name shadows an earlier one.
pub open spec fn entries_map<H>(s: Seq<(String, H)>) -> Map<Seq<char>, H>
    decreases s.len(),
{
    if s.len() == 0 {
        Map::empty()
    } else {
        entries_map(s.drop_last()).insert(s.last().0@, s.last().1)
    }
}

/// No two entries carry the same tool name.
pub open spec fn names_unique<H>(s: Seq<(String, H)>) -> bool {
    forall|i: int, j: int|
        0 <= i < s.len() && 0 <= j < s.len() && i != j ==> #[trigger] s[i].0@ != #[trigger] s[j].0@
}

/// How many entries carry the tool name `name`.
pub open spec fn count_named<H>(s: Seq<(String, H)>, name: Seq<char>) -> nat
    decreases s.len(),
{
    if s.len() == 0 {
        0
    } else {
        count_named(s.drop_last(), name) + if s.last().0@ == name { 1nat } else { 0nat }
    }
}

/// The handle registered under `name`, if any.
pub open spec fn lookup<H>(reg: Map<Seq<char>, H>, name: Seq<char>) -> Option<H> {
    if reg.contains_key(name) {
        Some(reg[name])
    } else {
        None
    }
}

/// The registry after a start of `name` whose spawn gave `spawned`: any
/// earlier handle under the name is gone, and a spawned one takes its place.
pub open spec fn start_outcome<H>(
    reg: Map<Seq<char>, H>,
    name: Seq<char>,
    spawned: Result<H, String>,
) -> Map<Seq<char>, H> {
    match spawned {
        Ok(h) => reg.remove(name).insert(name, h),
        Err(_) => reg.remove(name),
    }
}

/// What a non-blocking exit poll of a child reported.
#[derive(Clone, Copy, Debug, PartialEq, Eq)]
pub enum Probe {
    /// The child has not exited yet.
    Running,
    /// The child has exited.
    Exited,
    /// The poll itself failed.
    Failed,
}

/// The registry after the handle `handle`, taken out from under `name`, was
/// polled with outcome `probe`: a running child goes back, any other is dropped.
pub open spec fn probe_outcome<H>(
    reg: Map<Seq<char>, H>,
    name: Seq<char>,
    handle: H,
    probe: Probe,
) -> Map<Seq<char>, H> {
    if probe is Running {
        reg.insert(name, handle)
    } else {
        reg.remove(name)
    }
}

proof fn lemma_absent<H>(s: Seq<(String, H)>, name: Seq<char>)
    requires
        forall|i: int| 0 <= i < s.len() ==> #[trigger] s[i].0@ != name,
    ensures
        !entries_map(s).contains_key(name),
        count_named(s, name) == 0,
    decreases s.len(),
{
    if s.len() > 0 {
        assert forall|i: int| 0 <= i < s.drop_last().len() implies #[trigger] s.drop_last()[i].0@
            != name by {
            assert(s.drop_last()[i] == s[i]);
        }
        lemma_absent(s.drop_last(), name);
        assert(s.last() == s[s.len() - 1]);
    }
}

proof fn lemma_present<H>(s: Seq<(String, H)>, i: int)
    requires
        names_unique(s),
        0 <= i < s.len(),
    ensures
        entries_map(s).contains_key(s[i].0@),
        entries_map(s)[s[i].0@] == s[i].1,
        count_named(s, s[i].0@) == 1,
    decreases s.len(),
{
    let d = s.drop_last();
    assert(names_unique(d)) by {
        assert forall|a: int, b: int|
            0 <= a < d.len() && 0 <= b < d.len() && a != b implies #[trigger] d[a].0@
            != #[trigger] d[b].0@ by {
            assert(d[a] == s[a] && d[b] == s[b]);
        }
    }
    if i == s.len() - 1 {
        assert forall|j: int| 0 <= j < d.len() implies #[trigger] d[j].0@ != s[i].0@ by {
            assert(d[j] == s[j]);
        }
        lemma_absent(d, s[i].0@);
    } else {
        assert(d[i] == s[i]);
        lemma_present(d, i);
        assert(s.last() == s[s.len() - 1]);
    }
}

proof fn lemma_unique_map<H>(s: Seq<(String, H)>, name: Seq<char>)
    requires
        names_unique(s),
    ensures
        entries_map(s).contains_key(name) <==> exists|i: int| 0 <= i < s.len() && #[trigger] s[i].0@ == name,
        count_named(s, name) <= 1,
        count_named(s, name) == 1 <==> entries_map(s).contains_key(name),
{
    if exists|i: int| 0 <= i < s.len() && #[trigger] s[i].0@ == name {
        let i = choose|i: int| 0 <= i < s.len() && #[trigger] s[i].0@ == name;
        lemma_present(s, i);
    } else {
        lemma_absent(s, name);
    }
}

proof fn lemma_remove<H>(s: Seq<(String, H)>, i: int)
    requires
        names_unique(s),
        0 <= i < s.len(),
    ensures
        entries_map(s.remove(i)) == entries_map(s).remove(s[i].0@),
        names_unique(s.remove(i)),
    decreases s.len(),
{
    let d = s.drop_last();
    let k = s[i].0@;
    assert(names_unique(d)) by {
        assert forall|a: int, b: int|
            0 <= a < d.len() && 0 <= b < d.len() && a != b implies #[trigger] d[a].0@
            != #[trigger] d[b].0@ by {
            assert(d[a] == s[a] && d[b] == s[b]);
        }
    }
    let r = s.remove(i);
    assert(names_unique(r)) by {
        assert forall|a: int, b: int|
            0 <= a < r.len() && 0 <= b < r.len() && a != b implies #[trigger] r[a].0@
            != #[trigger] r[b].0@ by {
            let a2 = if a < i { a } else { a + 1 };
            let b2 = if b < i { b } else { b + 1 };
            assert(r[a] == s[a2] && r[b] == s[b2]);
        }
    }
    if i == s.len() - 1 {
        assert(r =~= d);
        assert forall|j: int| 0 <= j < d.len() implies #[trigger] d[j].0@ != k by {
            assert(d[j] == s[j]);
        }
        lemma_absent(d, k);
        assert(entries_map(r) =~= entries_map(s).remove(k));
    } else {
        assert(d[i] == s[i]);
        lemma_remove(d, i);
        assert(r =~= d.remove(i).push(s.last()));
        assert(r.drop_last() =~= d.remove(i));
        assert(s.last() == s[s.len() - 1]);
        assert(s.last().0@ != k);
        assert(entries_map(r) =~= entries_map(s).remove(k));
    }
}

proof fn lemma_push<H>(s: Seq<(String, H)>, e: (String, H))
    requires
        names_unique(s),
        !entries_map(s).contains_key(e.0@),
    ensures
        entries_map(s.push(e)) == entries_map(s).insert(e.0@, e.1),
        names_unique(s.push(e)),
{
    let p = s.push(e);
    assert(p.drop_last() =~= s);
    assert forall|a: int, b: int|
        0 <= a < p.len() && 0 <= b < p.len() && a != b implies #[trigger] p[a].0@
        != #[trigger] p[b].0@ by {
        if a == s.len() {
            if p[b].0@ == e.0@ {
                assert(p[b] == s[b]);
                lemma_present(s, b);
            }
        } else if b == s.len() {
            if p[a].0@ == e.0@ {
                assert(p[a] == s[a]);
                lemma_present(s, a);
            }
        } else {
            assert(p[a] == s[a] && p[b] == s[b]);
        }
    }
}

proof fn lemma_dom_len<H>(s: Seq<(String, H)>)
    requires
        names_unique(s),
    ensures
        entries_map(s).dom().finite(),
        entries_map(s).dom().len() == s.len(),
    decreases s.len(),
{
    if s.len() > 0 {
        let d = s.drop_last();
        assert(names_unique(d)) by {
            assert forall|a: int, b: int|
                0 <= a < d.len() && 0 <= b < d.len() && a != b implies #[trigger] d[a].0@
                != #[trigger] d[b].0@ by {
                assert(d[a] == s[a] && d[b] == s[b]);
            }
        }
        lemma_dom_len(d);
        assert forall|j: int| 0 <= j < d.len() implies #[trigger] d[j].0@ != s.last().0@ by {
            assert(d[j] == s[j]);
            assert(s.last() == s[s.len() - 1]);
        }
        lemma_absent(d, s.last().0@);
        assert(entries_map(s).dom() =~= entries_map(d).dom().insert(s.last().0@));
    }
}

/// The registry of live helper-tool processes: for each tool name at most one
/// handle `H`, owned by the registry until an operation hands it back.
pub struct ProcessManager<H> {
    children: Vec<(String, H)>,
}

impl<H> View for ProcessManager<H> {
    type V = Map<Seq<char>, H>;

    closed spec fn view(&self) -> Map<Seq<char>, H> {
        entries_map(self.children@)
    }
}

impl<H> ProcessManager<H> {
    /// The registry is well formed: no tool name is listed twice.
    pub closed spec fn wf(&self) -> bool {
        names_unique(self.children@)
    }

    /// How many handles the registry holds under `name`.
    pub closed spec fn handle_count(&self, name: Seq<char>) -> nat {
        count_named(self.children@, name)
    }

    /// An empty registry.
    pub fn new() -> (r: Self)
        ensures
            r.wf(),
            r@ == Map::<Seq<char>, H>::empty(),
    {
        let r = ProcessManager { children: Vec::new() };
        assert(r@ == entries_map(r.children@));
        r
    }

    fn position(&self, name: &String) -> (r: Option<usize>)
        requires
            self.wf(),
        ensures
            match r {
                Some(i) => i < self.children@.len() && self.children@[i as int].0@ == name@,
                None => forall|i: int|
                    0 <= i < self.children@.len() ==> #[trigger] self.children@[i].0@ != name@,
            },
    {
        let mut i: usize = 0;
        while i < self.children.len()
            invariant
                i <= self.children@.len(),
                forall|j: int| 0 <= j < i ==> #[trigger] self.children@[j].0@ != name@,
            decreases self.children@.len() - i,
        {
            if self.children[i].0 == *name {
                return Some(i);
            }
            i = i + 1;
        }
        None
    }

    fn take(&mut self, name: &String) -> (r: Option<H>)
        requires
            old(self).wf(),
        ensures
            final(self).wf(),
            r == lookup(old(self)@, name@),
            final(self)@ == old(self)@.remove(name@),
    {
        match self.position(name) {
            Some(i) => {
                proof {
                    lemma_present(self.children@, i as int);
                    lemma_remove(self.children@, i as int);
                }
                let (_, h) = self.children.remove(i);
                Some(h)
            },
            None => {
                proof {
                    lemma_absent(self.children@, name@);
                }
                assert(self@ =~= self@.remove(name@));
                None
            },
        }
    }

    fn put(&mut self, name: String, handle: H)
        requires
            old(self).wf(),
            !old(self)@.contains_key(name@),
        ensures
            final(self).wf(),
            final(self)@ == old(self)@.insert(name@, handle),
    {
        proof {
            lemma_push(self.children@, (name, handle));
        }
        self.children.push((name, handle));
    }

    /// Registers the outcome of starting `tool_name`. Any handle registered
    /// under the name before is removed and returned first, for the caller to
    /// terminate, whether or not the spawn succeeded. A spawned handle is then
    /// registered under the name; a spawn error leaves the name absent and is
    /// returned.
    pub fn start_tool(&mut self, tool_name: String, spawned: Result<H, String>) -> (r: (
        Option<H>,
        Result<(), String>,
    ))
        requires
            old(self).wf(),
        ensures
            final(self).wf(),
            r.0 == lookup(old(self)@, tool_name@),
            final(self)@ == start_outcome(old(self)@, tool_name@, spawned),
            r.1 == match spawned {
                Ok(_) => Ok::<(), String>(()),
                Err(e) => Err(e),
            },
            old(self)@.contains_key(tool_name@) ==> r.0 == Some(old(self)@[tool_name@]),
            final(self)@.contains_key(tool_name@) <==> spawned is Ok,
            forall|n: Seq<char>|
                n != tool_name@ ==> #[trigger] lookup(final(self)@, n) == lookup(old(self)@, n),
    {
        let previous = self.take(&tool_name);
        match spawned {
            Ok(h) => {
                self.put(tool_name, h);
                (previous, Ok(()))
            },
            Err(e) => (previous, Err(e)),
        }
    }

    /// Removes the handle registered under `tool_name` and returns it, for the
    /// caller to terminate. Stopping an absent tool returns `None` and changes
    /// nothing.
    pub fn stop_tool(&mut self, tool_name: &str) -> (r: Option<H>)
        requires
            old(self).wf(),
        ensures
            final(self).wf(),
            r == lookup(old(self)@, tool_name@),
            final(self)@ == old(self)@.remove(tool_name@),
            !old(self)@.contains_key(tool_name@) ==> r is None && final(self)@ == old(self)@,
    {
        let name = tool_name.to_owned();
        let r = self.take(&name);
        assert(!old(self)@.contains_key(tool_name@) ==> old(self)@.remove(tool_name@) =~= old(self)@);
        r
    }

    /// Settles a liveness check of `tool_name`, whose handle `handle` the
    /// caller took out with `stop_tool` and polled without waiting, with
    /// outcome `probe`. A running child goes back under its name and `true` is
    /// returned; an exited child, or one whose poll failed, stays out of the
    /// registry and `false` is returned.
    pub fn is_running(&mut self, tool_name: String, handle: H, probe: Probe) -> (r: bool)
        requires
            old(self).wf(),
        ensures
            final(self).wf(),
            r == (probe is Running),
            final(self)@ == probe_outcome(old(self)@, tool_name@, handle, probe),
    {
        let _ = self.take(&tool_name);
        match probe {
            Probe::Running => {
                self.put(tool_name, handle);
                assert(self@ =~= old(self)@.insert(tool_name@, handle));
                true
            },
            _ => false,
        }
    }

    /// Empties the registry and returns every handle it held, for the caller
    /// to terminate.
    pub fn stop_all(&mut self) -> (r: Vec<H>)
        requires
            old(self).wf(),
        ensures
            final(self).wf(),
            final(self)@ == Map::<Seq<char>, H>::empty(),
            r@.len() == old(self)@.dom().len(),
            forall|n: Seq<char>| #[trigger]
                old(self)@.contains_key(n) ==> r@.contains(old(self)@[n]),
            forall|i: int| 0 <= i < r@.len() ==> old(self)@.values().contains(#[trigger] r@[i]),
    {
        let ghost start = self.children@;
        proof {
            lemma_dom_len(start);
        }
        let mut handles: Vec<H> = Vec::new();
        while self.children.len() > 0
            invariant
                names_unique(start),
                handles@.len() + self.children@.len() == start.len(),
                self.children@ == start.take(self.children@.len() as int),
                forall|j: int|
                    0 <= j < handles@.len() ==> #[trigger] handles@[j] == start[start.len() - 1
                        - j].1,
            decreases self.children@.len(),
        {
            let ghost before = self.children@;
            let (_, h) = self.children.pop().unwrap();
            proof {
                assert(self.children@ =~= start.take(self.children@.len() as int));
            }
            handles.push(h);
        }
        assert forall|n: Seq<char>| #[trigger] old(self)@.contains_key(n) implies handles@.contains(
            old(self)@[n],
        ) by {
            lemma_unique_map(start, n);
            let i = choose|i: int| 0 <= i < start.len() && #[trigger] start[i].0@ == n;
            lemma_present(start, i);
            assert(handles@[start.len() - 1 - i] == start[i].1);
        }
        assert forall|i: int| 0 <= i < handles@.len() implies old(self)@.values().contains(
            #[trigger] handles@[i],
        ) by {
            let k = start.len() - 1 - i;
            lemma_present(start, k);
            assert(old(self)@.contains_key(start[k].0@) && old(self)@[start[k].0@] == handles@[i]);
        }
        assert(self@ =~= Map::<Seq<char>, H>::empty());
        handles
    }
}

/// Single owner: a well-formed registry holds at most one handle under any
/// tool name, and exactly one under each name that it maps.
pub proof fn lemma_single_owner<H>(m: &ProcessManager<H>, name: Seq<char>)
    requires
        m.wf(),
    ensures
        m.handle_count(name) <= 1,
        m.handle_count(name) == 1 <==> m@.contains_key(name),
{
    lemma_unique_map(m.children@, name);
}

/// Replacement: starting a tool that already holds a handle hands that handle
/// back for termination and unregisters it whatever the spawn gave; afterwards
/// the name holds the freshly spawned handle or nothing, and other names are
/// untouched.
pub proof fn lemma_replace<H>(reg: Map<Seq<char>, H>, name: Seq<char>, spawned: Result<H, String>)
    requires
        reg.contains_key(name),
    ensures
        lookup(reg, name) == Some(reg[name]),
        start_outcome(reg, name, spawned).contains_key(name) <==> spawned is Ok,
        spawned is Ok ==> start_outcome(reg, name, spawned)[name] == spawned->Ok_0,
        start_outcome(reg, name, spawned).remove(name) == reg.remove(name),
{
    assert(start_outcome(reg, name, spawned).remove(name) =~= reg.remove(name));
}

/// Lazy reap: when the handle of a registered tool is taken out and polled,
/// a poll that does not report a running child leaves the name absent, and a
/// running child leaves the registry as it was before the check.
pub proof fn lemma_lazy_reap<H>(reg: Map<Seq<char>, H>, name: Seq<char>, probe: Probe)
    requires
        reg.contains_key(name),
    ensures
        lookup(reg, name) == Some(reg[name]),
        !(probe is Running) ==> !probe_outcome(reg.remove(name), name, reg[name], probe).contains_key(
            name,
        ),
        probe is Running ==> probe_outcome(reg.remove(name), name, reg[name], probe) == reg,
{
    assert(probe is Running ==> probe_outcome(reg.remove(name), name, reg[name], probe) =~= reg);
}

} // verus!
