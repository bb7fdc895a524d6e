use vstd::prelude::*;

verus! {

/// Milliseconds allowed between two keys of one sequence.
pub const SEQUENCE_TIMEOUT_MS: u64 = 600;

/// The input interpretation context.
#[derive(Clone, Copy, Debug, PartialEq, Eq, Structural)]
pub enum Mode {
    Normal,
    Insert,
    Visual,
    VisualLine,
    VisualBlock,
}

/// Identity of a key, independent of modifiers.
#[derive(Clone, Copy, Debug, PartialEq, Eq, Structural)]
pub enum KeyCode {
    Char(char),
    Enter,
    Esc,
    Backspace,
    Tab,
    Delete,
    Left,
    Right,
    Up,
    Down,
    Home,
    End,
    PageUp,
    PageDown,
    F(u8),
    Other,
}

/// Set of modifier keys held down, one bit each.
#[derive(Clone, Copy, Debug, PartialEq, Eq, Structural)]
pub struct Modifiers {
    pub bits: u8,
}

pub const SHIFT: u8 = 1;

pub const CONTROL: u8 = 2;

pub const ALT: u8 = 4;

/// One key press: a key with the modifiers held.
#[derive(Clone, Copy, Debug, PartialEq, Eq, Structural)]
pub struct KeyStroke {
    pub code: KeyCode,
    pub modifiers: Modifiers,
}

/// One row of the binding table: in `mode`, pressing `keys` in order, each
/// with `modifiers`, runs `command`.
pub struct Binding {
    pub mode: Mode,
    pub modifiers: Modifiers,
    pub keys: Vec<KeyCode>,
    pub command: String,
}

/// Why a binding table was refused.
#[derive(Clone, Copy, Debug, PartialEq, Eq, Structural)]
pub enum BindingError {
    /// The binding at this index has no keys.
    EmptySequence(usize),
    /// In one mode, the sequence of binding `earlier` is a prefix of that of
    /// `later` or the other way round.
    Conflict { earlier: usize, later: usize },
}

/// One branch of a mode's prefix tree: the path from the root to a leaf and
/// the command at that leaf. A node of the tree is named by its path: it is
/// a leaf when some branch ends there and internal when some branch goes on.
pub struct KeyTree {
    pub mode: Mode,
    pub strokes: Vec<KeyStroke>,
    pub command: String,
}

/// The strokes that a binding's keys stand for.
pub open spec fn strokes_of(modifiers: Modifiers, keys: Seq<KeyCode>) -> Seq<KeyStroke> {
    keys.map_values(|k: KeyCode| KeyStroke { code: k, modifiers })
}

/// `a` is a (not necessarily strict) prefix of `b`.
pub open spec fn is_prefix(a: Seq<KeyStroke>, b: Seq<KeyStroke>) -> bool {
    a.len() <= b.len() && b.subrange(0, a.len() as int) == a
}

pub open spec fn related(a: Seq<KeyStroke>, b: Seq<KeyStroke>) -> bool {
    is_prefix(a, b) || is_prefix(b, a)
}

pub open spec fn binding_strokes(b: Binding) -> Seq<KeyStroke> {
    strokes_of(b.modifiers, b.keys@)
}

/// Binding `j` (earlier) and binding `i` clash.
pub open spec fn clash(bs: Seq<Binding>, j: int, i: int) -> bool {
    bs[j].mode == bs[i].mode && related(binding_strokes(bs[j]), binding_strokes(bs[i]))
}

/// Binding `i` is acceptable given the ones before it.
pub open spec fn valid_at(bs: Seq<Binding>, i: int) -> bool {
    bs[i].keys@.len() > 0 && forall|j: int| 0 <= j < i ==> !#[trigger] clash(bs, j, i)
}

pub open spec fn table_valid(bs: Seq<Binding>) -> bool {
    forall|i: int| 0 <= i < bs.len() ==> #[trigger] valid_at(bs, i)
}

/// The error that the first unacceptable binding, at index `i`, gives.
pub open spec fn error_at(bs: Seq<Binding>, i: int, e: BindingError) -> bool {
    &&& 0 <= i < bs.len()
    &&& !valid_at(bs, i)
    &&& forall|k: int| 0 <= k < i ==> #[trigger] valid_at(bs, k)
    &&& if bs[i].keys@.len() == 0 {
        e == BindingError::EmptySequence(i as usize)
    } else {
        exists|j: int|
            0 <= j < i && #[trigger] clash(bs, j, i) && (forall|k: int| 0 <= k < j ==> !#[trigger] clash(bs, k, i))
                && e == (BindingError::Conflict { earlier: j as usize, later: i as usize })
    }
}

/// No branch is empty and no two branches of one mode are prefix-related.
pub open spec fn tree_valid(t: Seq<KeyTree>) -> bool {
    &&& forall|i: int| 0 <= i < t.len() ==> (#[trigger] t[i]).strokes@.len() > 0
    &&& forall|i: int, j: int|
        0 <= i < t.len() && 0 <= j < t.len() && i != j && t[i].mode == t[j].mode
            ==> !related(#[trigger] t[i].strokes@, #[trigger] t[j].strokes@)
}

/// Some branch of mode `m` ends exactly at path `p`.
pub open spec fn is_leaf(t: Seq<KeyTree>, m: Mode, p: Seq<KeyStroke>) -> bool {
    exists|i: int| 0 <= i < t.len() && #[trigger] t[i].mode == m && t[i].strokes@ == p
}

/// Some branch of mode `m` goes on past path `p`.
pub open spec fn is_internal(t: Seq<KeyTree>, m: Mode, p: Seq<KeyStroke>) -> bool {
    exists|i: int|
        0 <= i < t.len() && #[trigger] t[i].mode == m && p.len() < t[i].strokes@.len() && is_prefix(p, t[i].strokes@)
}

/// The command at the leaf of mode `m` at path `p`.
pub open spec fn command_at(t: Seq<KeyTree>, m: Mode, p: Seq<KeyStroke>) -> Seq<char> {
    let i = choose|i: int| 0 <= i < t.len() && #[trigger] t[i].mode == m && t[i].strokes@ == p;
    t[i].command@
}

/// The pending path after which a new key is looked up: empty when idle
/// or when more than the timeout has passed since the last key.
pub open spec fn base_path(pending: Seq<KeyStroke>, last: u64, now: u64) -> Seq<KeyStroke> {
    if now as int - last as int > SEQUENCE_TIMEOUT_MS as int {
        Seq::empty()
    } else {
        pending
    }
}

/// `a` is a prefix of `b`, decided stroke by stroke.
fn prefix_of(a: &Vec<KeyStroke>, b: &Vec<KeyStroke>) -> (r: bool)
    ensures
        r == is_prefix(a@, b@),
{
    if a.len() > b.len() {
        return false;
    }
    let mut i: usize = 0;
    while i < a.len()
        invariant
            a@.len() <= b@.len(),
            0 <= i <= a@.len(),
            forall|k: int| 0 <= k < i ==> a@[k] == b@[k],
        decreases a@.len() - i,
    {
        if a[i] != b[i] {
            assert(b@.subrange(0, a@.len() as int)[i as int] != a@[i as int]);
            return false;
        }
        i = i + 1;
    }
    assert(b@.subrange(0, a@.len() as int) =~= a@);
    true
}

impl KeyTree {
    /// The branch for `keys`, each pressed with `mods`, ending in `end`.
    pub fn new(mode: Mode, mods: Modifiers, keys: &Vec<KeyCode>, end: String) -> (r: KeyTree)
        requires
            keys@.len() > 0,
        ensures
            r.mode == mode,
            r.strokes@ == strokes_of(mods, keys@),
            r.command == end,
    {
        let mut strokes: Vec<KeyStroke> = Vec::new();
        let mut i: usize = 0;
        while i < keys.len()
            invariant
                0 <= i <= keys@.len(),
                strokes@ == strokes_of(mods, keys@.subrange(0, i as int)),
            decreases keys@.len() - i,
        {
            strokes.push(KeyStroke { code: keys[i], modifiers: mods });
            assert(keys@.subrange(0, i + 1) =~= keys@.subrange(0, i as int).push(keys@[i as int]));
            i = i + 1;
        }
        assert(keys@.subrange(0, keys@.len() as int) =~= keys@);
        KeyTree { mode, strokes, command: end }
    }
}

/// Where a path leads in the active mode's tree.
enum Lookup {
    Miss,
    Partial,
    Hit(usize),
}

/// The modal key dispatcher: one prefix tree per mode and the path of the
/// sequence typed so far.
pub struct KeyController {
    mode: Mode,
    tree: Vec<KeyTree>,
    pending: Vec<KeyStroke>,
    last_event: u64,
}

impl KeyController {
    pub closed spec fn current_mode(&self) -> Mode {
        self.mode
    }

    pub closed spec fn branches(&self) -> Seq<KeyTree> {
        self.tree@
    }

    pub closed spec fn pending(&self) -> Seq<KeyStroke> {
        self.pending@
    }

    pub closed spec fn last_event(&self) -> u64 {
        self.last_event
    }

    pub open spec fn wf(&self) -> bool {
        tree_valid(self.branches())
    }

    /// Builds the trees from a binding table, refusing an empty sequence
    /// and, within one mode, two sequences one of which is a prefix of the
    /// other. The first offending binding decides the error.
    pub fn new(keymap: Vec<Binding>) -> (r: Result<KeyController, BindingError>)
        ensures
            r is Ok <==> table_valid(keymap@),
            r matches Err(e) ==> exists|i: int| error_at(keymap@, i, e),
            r matches Ok(c) ==> built_from(c, keymap@),
    {
        let mut tree: Vec<KeyTree> = Vec::new();
        let mut i: usize = 0;
        while i < keymap.len()
            invariant
                0 <= i <= keymap@.len(),
                tree@.len() == i,
                forall|k: int| 0 <= k < i ==> #[trigger] valid_at(keymap@, k),
                forall|k: int|
                    0 <= k < i ==> {
                        &&& (#[trigger] tree@[k]).mode == keymap@[k].mode
                        &&& tree@[k].strokes@ == binding_strokes(keymap@[k])
                        &&& tree@[k].command == keymap@[k].command
                    },
            decreases keymap@.len() - i,
        {
            let b = &keymap[i];
            if b.keys.len() == 0 {
                assert(error_at(keymap@, i as int, BindingError::EmptySequence(i)));
                return Err(BindingError::EmptySequence(i));
            }
            let branch = KeyTree::new(b.mode, b.modifiers, &b.keys, b.command.clone());
            let mut j: usize = 0;
            while j < i
                invariant
                    0 <= j <= i < keymap@.len(),
                    tree@.len() == i,
                    branch.mode == keymap@[i as int].mode,
                    branch.strokes@ == binding_strokes(keymap@[i as int]),
                    forall|k: int|
                        0 <= k < i ==> {
                            &&& (#[trigger] tree@[k]).mode == keymap@[k].mode
                            &&& tree@[k].strokes@ == binding_strokes(keymap@[k])
                        },
                    forall|k: int| 0 <= k < j ==> !#[trigger] clash(keymap@, k, i as int),
                    forall|k: int| 0 <= k < i ==> #[trigger] valid_at(keymap@, k),
                    keymap@[i as int].keys@.len() > 0,
                decreases i - j,
            {
                if tree[j].mode == branch.mode && (prefix_of(&tree[j].strokes, &branch.strokes)
                    || prefix_of(&branch.strokes, &tree[j].strokes)) {
                    let e = BindingError::Conflict { earlier: j, later: i };
                    assert(clash(keymap@, j as int, i as int));
                    assert(error_at(keymap@, i as int, e));
                    return Err(e);
                }
                j = j + 1;
            }
            assert(valid_at(keymap@, i as int));
            tree.push(branch);
            i = i + 1;
        }
        proof {
            assert forall|a: int, b: int|
                0 <= a < tree@.len() && 0 <= b < tree@.len() && a != b && tree@[a].mode == tree@[b].mode
                implies !related(#[trigger] tree@[a].strokes@, #[trigger] tree@[b].strokes@) by {
                if a < b {
                    assert(valid_at(keymap@, b));
                    assert(!clash(keymap@, a, b));
                } else {
                    assert(valid_at(keymap@, a));
                    assert(!clash(keymap@, b, a));
                }
            }
            assert forall|k: int| 0 <= k < tree@.len() implies (#[trigger] tree@[k]).strokes@.len() > 0 by {
                assert(valid_at(keymap@, k));
            }
        }
        Ok(KeyController { mode: Mode::Normal, tree, pending: Vec::new(), last_event: 0 })
    }

    fn find(&self, p: &Vec<KeyStroke>) -> (r: Lookup)
        requires
            self.wf(),
        ensures
            r matches Lookup::Hit(i) ==> i < self.branches().len() && self.branches()[i as int].mode == self.current_mode()
                && self.branches()[i as int].strokes@ == p@,
            r matches Lookup::Partial ==> !is_leaf(self.branches(), self.current_mode(), p@) && is_internal(
                self.branches(),
                self.current_mode(),
                p@,
            ),
            r matches Lookup::Miss ==> !is_leaf(self.branches(), self.current_mode(), p@) && !is_internal(
                self.branches(),
                self.current_mode(),
                p@,
            ),
    {
        let mut partial = false;
        let mut i: usize = 0;
        while i < self.tree.len()
            invariant
                0 <= i <= self.tree@.len(),
                forall|k: int|
                    0 <= k < i && #[trigger] self.tree@[k].mode == self.mode ==> self.tree@[k].strokes@ != p@,
                partial <==> exists|k: int|
                    0 <= k < i && #[trigger] self.tree@[k].mode == self.mode && p@.len()
                        < self.tree@[k].strokes@.len() && is_prefix(p@, self.tree@[k].strokes@),
            decreases self.tree@.len() - i,
        {
            let t = &self.tree[i];
            if t.mode == self.mode {
                let leads_on = prefix_of(p, &t.strokes);
                if leads_on && p.len() == t.strokes.len() {
                    assert(t.strokes@ =~= p@.subrange(0, p@.len() as int));
                    return Lookup::Hit(i);
                }
                if leads_on {
                    partial = true;
                }
                assert(t.strokes@ != p@) by {
                    if t.strokes@ == p@ {
                        assert(t.strokes@.subrange(0, p@.len() as int) =~= p@);
                    }
                }
            }
            i = i + 1;
        }
        if partial {
            Lookup::Partial
        } else {
            Lookup::Miss
        }
    }

    /// Feeds one key event at time `now` (milliseconds) in the current mode.
    /// Returns the command when the sequence reaches a leaf. An unknown key
    /// abandons the pending sequence; after more than the timeout since the
    /// last key, the pending sequence is dropped and the key starts afresh.
    pub fn process(&mut self, code: KeyCode, modifiers: Modifiers, now: u64) -> (r: Option<String>)
        requires
            old(self).wf(),
        ensures
            processed(*old(self), *final(self), KeyStroke { code, modifiers }, now, r),
    {
        if now > self.last_event && now - self.last_event > SEQUENCE_TIMEOUT_MS {
            self.pending = Vec::new();
        }
        self.pending.push(KeyStroke { code, modifiers });
        assert(self.pending@ == base_path(old(self).pending(), old(self).last_event(), now).push(
            KeyStroke { code, modifiers },
        ));
        let ghost t = self.tree@;
        let ghost p = self.pending@;
        match self.find(&self.pending) {
            Lookup::Hit(i) => {
                proof {
                    lemma_command_unique(t, self.mode, p, i as int);
                }
                let s = self.tree[i].command.clone();
                self.pending = Vec::new();
                Some(s)
            },
            Lookup::Partial => {
                self.last_event = now;
                None
            },
            Lookup::Miss => {
                self.pending = Vec::new();
                None
            },
        }
    }

    /// The active mode.
    pub fn mode(&self) -> (r: Mode)
        ensures
            r == self.current_mode(),
    {
        self.mode
    }

    /// Makes `m` the active mode; a pending sequence is dropped.
    pub fn set_mode(&mut self, m: Mode)
        requires
            old(self).wf(),
        ensures
            final(self).wf(),
            final(self).current_mode() == m,
            final(self).branches() == old(self).branches(),
            final(self).pending().len() == 0,
    {
        self.mode = m;
        self.pending = Vec::new();
    }

    /// Fixed-width display name of the current mode.
    pub fn mode_name(&self) -> (r: &'static str)
        ensures
            r@ == mode_text(self.current_mode()),
            r@.len() == 6,
    {
        match self.mode {
            Mode::Normal => {
                proof {
                    reveal_strlit("NORMAL");
                }
                "NORMAL"
            },
            Mode::Insert => {
                proof {
                    reveal_strlit("INSERT");
                }
                "INSERT"
            },
            Mode::Visual => {
                proof {
                    reveal_strlit("VISUAL");
                }
                "VISUAL"
            },
            Mode::VisualLine => {
                proof {
                    reveal_strlit("V-LINE");
                }
                "V-LINE"
            },
            Mode::VisualBlock => {
                proof {
                    reveal_strlit("VBLOCK");
                }
                "VBLOCK"
            },
        }
    }
}

/// `c` is the dispatcher that `keymap` builds: idle, in normal mode, with
/// one branch per binding, in order.
pub open spec fn built_from(c: KeyController, keymap: Seq<Binding>) -> bool {
    &&& c.wf()
    &&& c.current_mode() == Mode::Normal
    &&& c.pending().len() == 0
    &&& c.branches().len() == keymap.len()
    &&& forall|i: int|
        0 <= i < keymap.len() ==> {
            &&& (#[trigger] c.branches()[i]).mode == keymap[i].mode
            &&& c.branches()[i].strokes@ == binding_strokes(keymap[i])
            &&& c.branches()[i].command == keymap[i].command
        }
}

/// Dispatcher `a` becomes `b` and returns `r` on key `k` at time `now`.
pub open spec fn processed(a: KeyController, b: KeyController, k: KeyStroke, now: u64, r: Option<String>) -> bool {
    let t = a.branches();
    let m = a.current_mode();
    let p = base_path(a.pending(), a.last_event(), now).push(k);
    &&& b.wf()
    &&& b.current_mode() == m
    &&& b.branches() == t
    &&& if is_leaf(t, m, p) {
        &&& r matches Some(s) && s@ == command_at(t, m, p)
        &&& b.pending().len() == 0
    } else if is_internal(t, m, p) {
        &&& r is None
        &&& b.pending() == p
        &&& b.last_event() == now
    } else {
        &&& r is None
        &&& b.pending().len() == 0
    }
}

/// `cs[j]` becomes `cs[j + 1]` and returns `rs[j]` on key `ks[j]` at time
/// `ts[j]`, for every key of `ks`.
pub open spec fn fed(cs: Seq<KeyController>, rs: Seq<Option<String>>, ks: Seq<KeyStroke>, ts: Seq<u64>) -> bool {
    &&& cs.len() == ks.len() + 1
    &&& rs.len() == ks.len()
    &&& ts.len() == ks.len()
    &&& forall|j: int| 0 <= j < ks.len() ==> processed(cs[j], cs[j + 1], ks[j], ts[j], #[trigger] rs[j])
}

/// Each key comes no later than the timeout after the one before it.
pub open spec fn timely(ts: Seq<u64>) -> bool {
    forall|j: int| 0 < j < ts.len() ==> ts[j - 1] <= #[trigger] ts[j] <= ts[j - 1] + SEQUENCE_TIMEOUT_MS
}

proof fn lemma_feed_branch_prefix(
    cs: Seq<KeyController>,
    rs: Seq<Option<String>>,
    ks: Seq<KeyStroke>,
    ts: Seq<u64>,
    i: int,
    j: int,
)
    requires
        cs.len() > 0,
        cs[0].wf(),
        cs[0].pending().len() == 0,
        0 <= i < cs[0].branches().len(),
        cs[0].branches()[i].mode == cs[0].current_mode(),
        fed(cs, rs, ks, ts),
        timely(ts),
        0 <= j < cs[0].branches()[i].strokes@.len(),
        j <= ks.len(),
        ks.subrange(0, j) == cs[0].branches()[i].strokes@.subrange(0, j),
    ensures
        cs[j].wf(),
        cs[j].branches() == cs[0].branches(),
        cs[j].current_mode() == cs[0].current_mode(),
        cs[j].pending() == cs[0].branches()[i].strokes@.subrange(0, j),
        j > 0 ==> cs[j].last_event() == ts[j - 1],
        forall|k: int| 0 <= k < j ==> rs[k] is None,
    decreases j,
{
    let t = cs[0].branches();
    let s = t[i].strokes@;
    if j > 0 {
        assert(ks.subrange(0, j - 1) =~= ks.subrange(0, j).subrange(0, j - 1));
        assert(s.subrange(0, j - 1) =~= s.subrange(0, j).subrange(0, j - 1));
        assert(ks[j - 1] == ks.subrange(0, j)[j - 1]);
        assert(s[j - 1] == s.subrange(0, j)[j - 1]);
        lemma_feed_branch_prefix(cs, rs, ks, ts, i, j - 1);
        assert(processed(cs[j - 1], cs[j], ks[j - 1], ts[j - 1], rs[j - 1]));
        let p = base_path(cs[j - 1].pending(), cs[j - 1].last_event(), ts[j - 1]).push(s[j - 1]);
        if j > 1 {
            assert(ts[j - 2] <= ts[j - 1] <= ts[j - 2] + SEQUENCE_TIMEOUT_MS);
        }
        assert(p =~= s.subrange(0, j));
        assert(is_internal(t, cs[0].current_mode(), p)) by {
            assert(s.subrange(0, p.len() as int) =~= p);
        }
        if is_leaf(t, cs[0].current_mode(), p) {
            let k = choose|k: int| 0 <= k < t.len() && #[trigger] t[k].mode == cs[0].current_mode() && t[k].strokes@ == p;
            assert(s.subrange(0, p.len() as int) =~= p);
            assert(related(t[k].strokes@, t[i].strokes@));
        }
    }
}

/// In a valid tree, the leaf at a path holds the command of the branch
/// that ends there.
proof fn lemma_command_unique(t: Seq<KeyTree>, m: Mode, p: Seq<KeyStroke>, i: int)
    requires
        tree_valid(t),
        0 <= i < t.len(),
        t[i].mode == m,
        t[i].strokes@ == p,
    ensures
        is_leaf(t, m, p),
        command_at(t, m, p) == t[i].command@,
{
    assert(is_leaf(t, m, p));
    let k = choose|k: int| 0 <= k < t.len() && #[trigger] t[k].mode == m && t[k].strokes@ == p;
    if k != i {
        assert(t[i].strokes@.subrange(0, p.len() as int) =~= p);
        assert(related(t[k].strokes@, t[i].strokes@));
    }
}

/// Feeding the keys of a branch in order, from idle and each within the
/// timeout of the one before, yields nothing on every key but the last
/// and the branch's command on the last.
pub proof fn lemma_sequence_resolves(cs: Seq<KeyController>, rs: Seq<Option<String>>, ts: Seq<u64>, i: int)
    requires
        cs.len() > 0,
        cs[0].wf(),
        cs[0].pending().len() == 0,
        0 <= i < cs[0].branches().len(),
        cs[0].branches()[i].mode == cs[0].current_mode(),
        fed(cs, rs, cs[0].branches()[i].strokes@, ts),
        timely(ts),
    ensures
        forall|k: int| 0 <= k < rs.len() - 1 ==> rs[k] is None,
        rs[rs.len() - 1] matches Some(c) && c@ == cs[0].branches()[i].command@,
        cs[rs.len() as int].pending().len() == 0,
{
    let t = cs[0].branches();
    let m = cs[0].current_mode();
    let s = t[i].strokes@;
    let n = s.len() as int;
    lemma_feed_branch_prefix(cs, rs, s, ts, i, n - 1);
    assert(processed(cs[n - 1], cs[n], s[n - 1], ts[n - 1], rs[n - 1]));
    let p = base_path(cs[n - 1].pending(), cs[n - 1].last_event(), ts[n - 1]).push(s[n - 1]);
    if n > 1 {
        assert(ts[n - 2] <= ts[n - 1] <= ts[n - 2] + SEQUENCE_TIMEOUT_MS);
    }
    assert(p =~= s);
    lemma_command_unique(t, m, p, i);
    assert(rs.len() == n);
}

/// From idle, keys that follow a proper prefix of a branch, each within the
/// timeout, and then a key that leaves every branch, yield nothing on every
/// key and leave the dispatcher idle: the mismatch is not retried from the
/// root.
pub proof fn lemma_mismatch_drops(cs: Seq<KeyController>, rs: Seq<Option<String>>, ks: Seq<KeyStroke>, ts: Seq<u64>, i: int)
    requires
        cs.len() > 0,
        cs[0].wf(),
        cs[0].pending().len() == 0,
        0 <= i < cs[0].branches().len(),
        cs[0].branches()[i].mode == cs[0].current_mode(),
        fed(cs, rs, ks, ts),
        timely(ts),
        2 <= ks.len() <= cs[0].branches()[i].strokes@.len(),
        ks.subrange(0, ks.len() - 1) == cs[0].branches()[i].strokes@.subrange(0, ks.len() - 1),
        !is_leaf(cs[0].branches(), cs[0].current_mode(), ks),
        !is_internal(cs[0].branches(), cs[0].current_mode(), ks),
    ensures
        forall|k: int| 0 <= k < rs.len() ==> rs[k] is None,
        cs[ks.len() as int].pending().len() == 0,
{
    let n = ks.len() as int;
    lemma_feed_branch_prefix(cs, rs, ks, ts, i, n - 1);
    assert(processed(cs[n - 1], cs[n], ks[n - 1], ts[n - 1], rs[n - 1]));
    assert(ts[n - 2] <= ts[n - 1] <= ts[n - 2] + SEQUENCE_TIMEOUT_MS);
    let p = base_path(cs[n - 1].pending(), cs[n - 1].last_event(), ts[n - 1]).push(ks[n - 1]);
    assert(p =~= ks);
}

/// A key that comes more than the timeout after the last one is looked up
/// from the root, as if nothing were pending.
pub proof fn lemma_timeout_restarts(a: KeyController, b: KeyController, k: KeyStroke, now: u64, r: Option<String>)
    requires
        processed(a, b, k, now, r),
        now > a.last_event() + SEQUENCE_TIMEOUT_MS,
    ensures
        ({
            let t = a.branches();
            let m = a.current_mode();
            if is_leaf(t, m, seq![k]) {
                r matches Some(s) && s@ == command_at(t, m, seq![k]) && b.pending().len() == 0
            } else if is_internal(t, m, seq![k]) {
                r is None && b.pending() == seq![k] && b.last_event() == now
            } else {
                r is None && b.pending().len() == 0
            }
        }),
{
    assert(base_path(a.pending(), a.last_event(), now).push(k) =~= seq![k]);
}

/// From idle, a key sequence none of whose stretches is a full binding of
/// the mode, and none of whose final stretches leads into a binding, yields
/// nothing on every key and leaves the dispatcher idle, whatever the timing.
pub proof fn lemma_unbound_sequence(cs: Seq<KeyController>, rs: Seq<Option<String>>, ks: Seq<KeyStroke>, ts: Seq<u64>)
    requires
        cs.len() > 0,
        cs[0].wf(),
        cs[0].pending().len() == 0,
        fed(cs, rs, ks, ts),
        forall|x: int, y: int|
            0 <= x < y <= ks.len() ==> !is_leaf(cs[0].branches(), cs[0].current_mode(), #[trigger] ks.subrange(x, y)),
        forall|x: int|
            0 <= x < ks.len() ==> !is_internal(cs[0].branches(), cs[0].current_mode(), #[trigger] ks.subrange(x, ks.len() as int)),
    ensures
        forall|k: int| 0 <= k < rs.len() ==> rs[k] is None,
        cs[ks.len() as int].pending().len() == 0,
{
    lemma_unbound_steps(cs, rs, ks, ts, ks.len() as int);
    let n = ks.len() as int;
    let x = choose|x: int| 0 <= x <= n && cs[n].pending() == #[trigger] ks.subrange(x, n);
    if x < n {
        assert(!is_internal(cs[0].branches(), cs[0].current_mode(), ks.subrange(x, n)));
    }
}

proof fn lemma_unbound_steps(cs: Seq<KeyController>, rs: Seq<Option<String>>, ks: Seq<KeyStroke>, ts: Seq<u64>, j: int)
    requires
        cs.len() > 0,
        cs[0].wf(),
        cs[0].pending().len() == 0,
        fed(cs, rs, ks, ts),
        forall|x: int, y: int|
            0 <= x < y <= ks.len() ==> !is_leaf(cs[0].branches(), cs[0].current_mode(), #[trigger] ks.subrange(x, y)),
        0 <= j <= ks.len(),
    ensures
        cs[j].wf(),
        cs[j].branches() == cs[0].branches(),
        cs[j].current_mode() == cs[0].current_mode(),
        exists|x: int| 0 <= x <= j && cs[j].pending() == #[trigger] ks.subrange(x, j),
        forall|k: int| 0 <= k < j ==> rs[k] is None,
        forall|x: int|
            0 <= x < j && cs[j].pending() == #[trigger] ks.subrange(x, j) && cs[j].pending().len() > 0 ==> is_internal(
                cs[0].branches(),
                cs[0].current_mode(),
                ks.subrange(x, j),
            ),
    decreases j,
{
    if j == 0 {
        assert(cs[0].pending() =~= ks.subrange(0, 0));
    } else {
        lemma_unbound_steps(cs, rs, ks, ts, j - 1);
        let t = cs[0].branches();
        let m = cs[0].current_mode();
        let x0 = choose|x: int| 0 <= x <= j - 1 && cs[j - 1].pending() == #[trigger] ks.subrange(x, j - 1);
        assert(processed(cs[j - 1], cs[j], ks[j - 1], ts[j - 1], rs[j - 1]));
        let base = base_path(cs[j - 1].pending(), cs[j - 1].last_event(), ts[j - 1]);
        let p = base.push(ks[j - 1]);
        let x1 = if base.len() == 0 { j - 1 } else { x0 };
        assert(p =~= ks.subrange(x1, j));
        assert(!is_leaf(t, m, ks.subrange(x1, j)));
        if is_internal(t, m, p) {
            assert(cs[j].pending() == ks.subrange(x1, j));
            assert forall|x: int|
                0 <= x < j && cs[j].pending() == #[trigger] ks.subrange(x, j) && cs[j].pending().len() > 0 implies is_internal(
                t,
                m,
                ks.subrange(x, j),
            ) by {
                assert(ks.subrange(x, j) == p);
            }
        } else {
            assert(cs[j].pending() =~= ks.subrange(j, j));
        }
    }
}

/// Display name of a mode.
pub open spec fn mode_text(m: Mode) -> Seq<char> {
    match m {
        Mode::Normal => seq!['N', 'O', 'R', 'M', 'A', 'L'],
        Mode::Insert => seq!['I', 'N', 'S', 'E', 'R', 'T'],
        Mode::Visual => seq!['V', 'I', 'S', 'U', 'A', 'L'],
        Mode::VisualLine => seq!['V', '-', 'L', 'I', 'N', 'E'],
        Mode::VisualBlock => seq!['V', 'B', 'L', 'O', 'C', 'K'],
    }
}

} // verus!
