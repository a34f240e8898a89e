use vstd::prelude::*;

use crate::config::{any_keyword_matches, any_matches, Ignore, Keyword};
use crate::folder::{Action, Dest, DropReason, Folder};
use crate::mail::{Mail, Type};
use crate::text::{
    any_mentions, contains_string, first_true, has_string, lemma_first_true, lemma_first_true_is,
    lemma_first_true_none, mentions_any, seq_contains,
};

verus! {

/// Why a batch of messages cannot be assorted.
#[derive(Debug, Clone, PartialEq, Eq)]
pub enum AssortError {
    /// New messages (by index) that share a `Message-ID` with an earlier
    /// message and are no recognisable duplicate, or filed copies of one ID
    /// that live in different folders.
    Duplicates(Vec<usize>),
    /// The reply chain of this new message does not end.
    Cycle(usize),
    /// New messages (by index) whose destination disagrees with a message of
    /// the thread they reply to.
    Threads(Vec<usize>),
}

/// Whether any string of `hay` contains `needle`.
pub open spec fn mentions(hay: Seq<String>, needle: Seq<char>) -> bool {
    exists|i: int| 0 <= i < hay.len() && seq_contains(#[trigger] hay[i]@, needle)
}

/// Whether some string of `hay` is one of `set`.
pub open spec fn any_listed(hay: Seq<String>, set: Seq<String>) -> bool {
    exists|i: int| 0 <= i < hay.len() && has_string(set, #[trigger] hay[i]@)
}

/// The weight of an action in the fixpoint's potential: its folder index.
pub open spec fn weight(a: Option<Action>) -> nat {
    match a {
        Some(x) => match x.dest {
            Dest::Folder(f) => f as nat,
            Dest::Drop(_) => 0,
        },
        None => 0,
    }
}

/// The sum of the folder indices of all actions.
pub open spec fn potential(s: Seq<Option<Action>>) -> nat
    decreases s.len(),
{
    if s.len() == 0 {
        0
    } else {
        potential(s.drop_last()) + weight(s.last())
    }
}

proof fn lemma_potential_update(s: Seq<Option<Action>>, k: int, a: Option<Action>)
    requires
        0 <= k < s.len(),
    ensures
        potential(s.update(k, a)) + weight(s[k]) == potential(s) + weight(a),
    decreases s.len(),
{
    if k < s.len() - 1 {
        assert(s.update(k, a).drop_last() =~= s.drop_last().update(k, a));
        lemma_potential_update(s.drop_last(), k, a);
    } else {
        assert(s.update(k, a).drop_last() =~= s.drop_last());
    }
}

/// `b` came from `a` by moving to a more preferred folder, or not at all.
pub open spec fn improved(a: Option<Action>, b: Option<Action>) -> bool {
    match (a, b) {
        (Some(x), Some(y)) => x.dest == y.dest || match (x.dest, y.dest) {
            (Dest::Folder(p), Dest::Folder(q)) => q < p,
            _ => false,
        },
        (None, None) => true,
        _ => false,
    }
}

/// Every dropped action of `a` stands unchanged in `b`.
pub open spec fn keeps_drops(a: Seq<Option<Action>>, b: Seq<Option<Action>>) -> bool {
    forall|k: int|
        0 <= k < a.len() && (#[trigger] a[k] matches Some(x) && x.dest is Drop) ==> b[k] == a[k]
}

/// The messages and rules of one run.
pub struct Assorter {
    /// All messages in discovery order: filed ones first, then new ones.
    pub mails: Vec<Mail>,
    /// Folders in order of preference.
    pub folders: Vec<Folder>,
    /// Index of the catch-all folder.
    pub rest: usize,
    /// Keywords that flag a message, for folders without their own.
    pub flagging: Vec<Keyword>,
    /// The user's own addresses.
    pub addresses: Vec<String>,
    /// `List-Id`s whose duplicates are dropped whatever their content.
    pub deduplicate: Vec<String>,
    pub ignore: Option<Ignore>,
}

impl Assorter {
    pub open spec fn wf(&self) -> bool {
        &&& self.rest < self.folders.len()
        &&& forall|i: int|
            0 <= i < self.mails.len() ==> (#[trigger] self.mails@[i].typ matches Type::Folder(f)
                ==> f < self.folders.len())
    }

    pub open spec fn valid(&self, a: Action) -> bool {
        a.dest matches Dest::Folder(f) ==> f < self.folders.len()
    }

    pub open spec fn is_new(&self, i: int) -> bool {
        self.mails@[i].typ is New
    }

    // ---- indexing ----
    pub open spec fn same_id(&self, i: int, j: int) -> bool {
        self.mails@[i].id@ == self.mails@[j].id@
    }

    /// An earlier message shares the `Message-ID` of message `i`.
    pub open spec fn has_earlier(&self, i: int) -> bool {
        exists|j: int| 0 <= j < i && #[trigger] self.same_id(j, i)
    }

    /// An earlier message with the same ID is a verbatim copy of message `i`.
    pub open spec fn has_copy(&self, i: int) -> bool {
        exists|j: int|
            0 <= j < i && #[trigger] self.same_id(j, i) && (self.mails@[j].raw@
                == self.mails@[i].raw@ || self.mails@[j].body@ == self.mails@[i].body@)
    }

    /// An earlier message with the same ID lies elsewhere.
    pub open spec fn has_other_place(&self, i: int) -> bool {
        exists|j: int|
            0 <= j < i && #[trigger] self.same_id(j, i) && self.mails@[j].typ != self.mails@[i].typ
    }

    /// How indexing disposes of message `i`, if it drops it.
    pub open spec fn index_drop(&self, i: int) -> Option<DropReason> {
        if self.is_new(i) && self.has_earlier(i) {
            if any_listed(self.mails@[i].list_ids@, self.deduplicate@) {
                Some(DropReason::DuplicateQuirk)
            } else if self.has_copy(i) {
                Some(DropReason::VerbatimCopy)
            } else {
                None
            }
        } else {
            None
        }
    }

    /// Message `i` is a duplicate that indexing cannot settle.
    pub open spec fn index_conflict(&self, i: int) -> bool {
        if self.is_new(i) {
            self.has_earlier(i) && self.index_drop(i) is None
        } else {
            self.has_other_place(i)
        }
    }

    /// The action that indexing fixes for message `i`.
    pub open spec fn initial(&self, i: int) -> Option<Action> {
        match self.index_drop(i) {
            Some(r) => Some(Action { dest: Dest::Drop(r), mark_read: false, mark_flagged: false }),
            None => None,
        }
    }

    // ---- resolution ----
    /// The first message with ID `id`.
    pub open spec fn first_with_id(&self, id: Seq<char>) -> Option<int> {
        first_true(|j: int| self.mails@[j].id@ == id, self.mails.len() as int)
    }

    /// The canonical parent of message `i`.
    pub open spec fn parent_of(&self, i: int) -> Option<int> {
        match self.mails@[i].parent {
            Some(p) => self.first_with_id(p@),
            None => None,
        }
    }

    pub open spec fn routes_to(&self, i: int, k: int) -> bool {
        any_matches(self.folders@[k].keywords@, self.mails@[i].body@)
    }

    /// The first folder below `limit` whose keywords match message `i`.
    pub open spec fn first_route(&self, i: int, limit: int) -> Option<int> {
        first_true(|k: int| self.routes_to(i, k), limit)
    }

    /// Keyword routing: only a folder preferred to the candidate may
    /// override it.
    pub open spec fn scan(&self, i: int, cand: Option<Dest>) -> Option<Dest> {
        let n = self.folders.len() as int;
        let limit = match cand {
            Some(Dest::Folder(f)) => if f < n {
                f as int
            } else {
                n
            },
            Some(Dest::Drop(_)) => 0,
            None => n,
        };
        match self.first_route(i, limit) {
            Some(k) => Some(Dest::Folder(k as usize)),
            None => cand,
        }
    }

    /// Message `i` is on an ignored list and does not mention the user.
    pub open spec fn ignored(&self, i: int) -> bool {
        match self.ignore {
            Some(ig) => any_listed(self.mails@[i].list_ids@, ig.lists@) && !mentions(
                self.mails@[i].to@,
                ig.name@,
            ) && !mentions(self.mails@[i].cc@, ig.name@),
            None => false,
        }
    }

    /// Message `i` was sent from one of the user's addresses.
    pub open spec fn from_own(&self, i: int) -> bool {
        any_mentions(self.mails@[i].from@, self.addresses@)
    }

    /// Whether message `i` is flagged when filed into folder `f`.
    pub open spec fn flagged_in(&self, i: int, f: int) -> bool {
        match self.folders@[f].flagging_keywords {
            Some(kws) => any_matches(kws@, self.mails@[i].body@),
            None => any_matches(self.flagging@, self.mails@[i].body@),
        }
    }

    /// The flag computation for message `i` on action `a`.
    pub open spec fn with_flags(&self, i: int, a: Action) -> Action {
        match a.dest {
            Dest::Drop(_) => a,
            Dest::Folder(f) => {
                let a1 = if self.folders@[f as int].mark_read {
                    a.spec_read()
                } else {
                    a
                };
                if self.flagged_in(i, f as int) {
                    a1.spec_flag()
                } else {
                    a1
                }
            },
        }
    }

    /// The action for message `i` from its routing candidate.
    pub open spec fn finish(&self, i: int, cand: Option<Dest>) -> Action {
        let d = match cand {
            Some(d) => d,
            None => Dest::Folder(self.rest),
        };
        let a1 = if d == Dest::Folder(self.rest) && self.ignored(i) {
            Action { dest: Dest::Drop(DropReason::Ignored), mark_read: false, mark_flagged: false }
        } else {
            Action { dest: d, mark_read: false, mark_flagged: false }
        };
        let a2 = self.with_flags(i, a1);
        if self.from_own(i) {
            a2.spec_read()
        } else {
            a2
        }
    }

    /// The action of message `i`, following at most `fuel` replies up its
    /// chain of new parents.
    pub open spec fn resolve(&self, i: int, fuel: nat) -> Option<Action>
        decreases fuel,
    {
        if self.initial(i) is Some {
            self.initial(i)
        } else if fuel == 0 {
            None
        } else {
            match self.parent_of(i) {
                None => Some(self.finish(i, self.scan(i, None))),
                Some(p) => match self.mails@[p].typ {
                    Type::Folder(f) => Some(self.finish(i, Some(Dest::Folder(f)))),
                    Type::New => match self.resolve(p, (fuel - 1) as nat) {
                        None => None,
                        Some(pa) => Some(self.finish(i, self.scan(i, Some(pa.dest)))),
                    },
                },
            }
        }
    }

    /// `a` is the action of message `i`.
    pub open spec fn settles(&self, i: int, a: Action) -> bool {
        exists|f: nat| #[trigger] self.resolve(i, f) == Some(a)
    }

    pub open spec fn memo_ok(&self, actions: Seq<Option<Action>>) -> bool {
        &&& actions.len() == self.mails.len()
        &&& forall|j: int|
            0 <= j < actions.len() ==> (self.initial(j) is Some ==> #[trigger] actions[j]
                == self.initial(j))
        &&& forall|j: int|
            0 <= j < actions.len() ==> (#[trigger] actions[j] matches Some(a) ==> self.settles(
                j,
                a,
            ))
    }
}


impl Assorter {
    proof fn lemma_resolve_mono(&self, i: int, f1: nat, f2: nat)
        requires
            f1 <= f2,
            self.resolve(i, f1) is Some,
        ensures
            self.resolve(i, f2) == self.resolve(i, f1),
        decreases f1,
    {
        if self.initial(i) is None && f1 > 0 {
            if let Some(p) = self.parent_of(i) {
                if self.mails@[p].typ is New {
                    self.lemma_resolve_mono(p, (f1 - 1) as nat, (f2 - 1) as nat);
                }
            }
        }
    }

    /// A message has at most one action.
    pub proof fn lemma_settles_unique(&self, i: int, a: Action, b: Action)
        requires
            self.settles(i, a),
            self.settles(i, b),
        ensures
            a == b,
    {
        let fa = choose|f: nat| #[trigger] self.resolve(i, f) == Some(a);
        let fb = choose|f: nat| #[trigger] self.resolve(i, f) == Some(b);
        if fa <= fb {
            self.lemma_resolve_mono(i, fa, fb);
        } else {
            self.lemma_resolve_mono(i, fb, fa);
        }
    }

    proof fn lemma_finish_ok(&self, i: int, cand: Option<Dest>)
        requires
            self.wf(),
            cand matches Some(d) ==> (d matches Dest::Folder(f) ==> f < self.folders.len()),
        ensures
            self.finish(i, self.scan(i, cand)).wf(),
            self.valid(self.finish(i, self.scan(i, cand))),
            self.finish(i, cand).wf(),
            self.valid(self.finish(i, cand)),
    {
        let n = self.folders.len() as int;
        let limit = match cand {
            Some(Dest::Folder(f)) => if f < n {
                f as int
            } else {
                n
            },
            Some(Dest::Drop(_)) => 0,
            None => n,
        };
        lemma_first_true(|k: int| self.routes_to(i, k), limit);
    }

    /// Every resolved action is valid and has exclusive marks.
    pub proof fn lemma_resolve_ok(&self, i: int, fuel: nat)
        requires
            self.wf(),
            self.resolve(i, fuel) is Some,
        ensures
            self.resolve(i, fuel).unwrap().wf(),
            self.valid(self.resolve(i, fuel).unwrap()),
        decreases fuel,
    {
        if self.initial(i) is None {
            match self.parent_of(i) {
                None => self.lemma_finish_ok(i, None),
                Some(p) => {
                    assert(0 <= p < self.mails.len()) by {
                        lemma_first_true(
                            |j: int| self.mails@[j].id@ == self.mails@[i].parent.unwrap()@,
                            self.mails.len() as int,
                        );
                    }
                    match self.mails@[p].typ {
                        Type::Folder(f) => self.lemma_finish_ok(i, Some(Dest::Folder(f))),
                        Type::New => {
                            self.lemma_resolve_ok(p, (fuel - 1) as nat);
                            self.lemma_finish_ok(i, Some(self.resolve(p, (fuel - 1) as nat).unwrap().dest));
                        },
                    }
                },
            }
        }
    }
}


fn mentions_name(hay: &Vec<String>, name: &String) -> (r: bool)
    ensures
        r == mentions(hay@, name@),
{
    let mut i: usize = 0;
    while i < hay.len()
        invariant
            i <= hay.len(),
            forall|j: int| 0 <= j < i ==> !seq_contains(#[trigger] hay@[j]@, name@),
        decreases hay.len() - i,
    {
        if crate::text::contains(hay[i].as_str(), name.as_str()) {
            return true;
        }
        i = i + 1;
    }
    false
}

pub(crate) fn listed_any(hay: &Vec<String>, set: &Vec<String>) -> (r: bool)
    ensures
        r == any_listed(hay@, set@),
{
    let mut i: usize = 0;
    while i < hay.len()
        invariant
            i <= hay.len(),
            forall|j: int| 0 <= j < i ==> !has_string(set@, #[trigger] hay@[j]@),
        decreases hay.len() - i,
    {
        if contains_string(set, &hay[i]) {
            return true;
        }
        i = i + 1;
    }
    false
}

impl Assorter {
    fn first_with_id_exec(&self, id: &String) -> (r: Option<usize>)
        ensures
            match r {
                Some(j) => self.first_with_id(id@) == Some(j as int),
                None => self.first_with_id(id@) is None,
            },
    {
        let mut j: usize = 0;
        let mut found = false;
        while j < self.mails.len() && !found
            invariant
                j <= self.mails.len(),
                found ==> j < self.mails.len() && self.mails@[j as int].id@ == id@,
                forall|k: int| 0 <= k < j ==> #[trigger] self.mails@[k].id@ != id@,
            decreases self.mails.len() - j + (if found { 0int } else { 1int }),
        {
            if self.mails[j].id == *id {
                found = true;
            } else {
                j = j + 1;
            }
        }
        let ghost p = |k: int| self.mails@[k].id@ == id@;
        assert(forall|k: int| 0 <= k < j ==> !#[trigger] p(k));
        if found {
            proof {
                lemma_first_true_is(p, self.mails.len() as int, j as int);
            }
            Some(j)
        } else {
            proof {
                lemma_first_true_none(p, self.mails.len() as int);
            }
            None
        }
    }

    /// The first folder below `limit` whose keywords match message `i`.
    fn route(&self, i: usize, limit: usize) -> (r: Option<usize>)
        requires
            i < self.mails.len(),
            limit <= self.folders.len(),
        ensures
            match r {
                Some(k) => self.first_route(i as int, limit as int) == Some(k as int),
                None => self.first_route(i as int, limit as int) is None,
            },
    {
        let mut k: usize = 0;
        let mut found = false;
        while k < limit && !found
            invariant
                k <= limit <= self.folders.len(),
                i < self.mails.len(),
                found ==> k < limit && self.routes_to(i as int, k as int),
                forall|j: int| 0 <= j < k ==> !#[trigger] self.routes_to(i as int, j),
            decreases limit - k + (if found { 0int } else { 1int }),
        {
            if any_keyword_matches(&self.folders[k].keywords, self.mails[i].body.as_str()) {
                found = true;
            } else {
                k = k + 1;
            }
        }
        let ghost p = |j: int| self.routes_to(i as int, j);
        assert(forall|j: int| 0 <= j < k ==> !#[trigger] p(j));
        if found {
            proof {
                lemma_first_true_is(p, limit as int, k as int);
            }
            Some(k)
        } else {
            proof {
                lemma_first_true_none(p, limit as int);
            }
            None
        }
    }

    fn scan_exec(&self, i: usize, cand: Option<Dest>) -> (r: Option<Dest>)
        requires
            i < self.mails.len(),
        ensures
            r == self.scan(i as int, cand),
            (cand matches Some(d) ==> (d matches Dest::Folder(f) ==> f < self.folders.len())) ==> (
            r matches Some(d) ==> (d matches Dest::Folder(f) ==> f < self.folders.len())),
    {
        let n = self.folders.len();
        let limit = match cand {
            Some(Dest::Folder(f)) => if f < n {
                f
            } else {
                n
            },
            Some(Dest::Drop(_)) => 0,
            None => n,
        };
        proof {
            lemma_first_true(|k: int| self.routes_to(i as int, k), limit as int);
        }
        match self.route(i, limit) {
            Some(k) => Some(Dest::Folder(k)),
            None => cand,
        }
    }

    fn is_ignored(&self, i: usize) -> (r: bool)
        requires
            i < self.mails.len(),
        ensures
            r == self.ignored(i as int),
    {
        match &self.ignore {
            Some(ig) => listed_any(&self.mails[i].list_ids, &ig.lists) && !mentions_name(
                &self.mails[i].to,
                &ig.name,
            ) && !mentions_name(&self.mails[i].cc, &ig.name),
            None => false,
        }
    }

    /// Sets the marks of `action` for message `i` in its folder.
    pub fn compute_flags(&self, i: usize, action: &mut Action)
        requires
            i < self.mails.len(),
            self.valid(*old(action)),
        ensures
            *final(action) == self.with_flags(i as int, *old(action)),
    {
        match action.dest() {
            Dest::Drop(_) => {},
            Dest::Folder(f) => {
                if self.folders[f].mark_read {
                    action.read();
                }
                let flagged = match &self.folders[f].flagging_keywords {
                    Some(kws) => any_keyword_matches(kws, self.mails[i].body.as_str()),
                    None => any_keyword_matches(&self.flagging, self.mails[i].body.as_str()),
                };
                if flagged {
                    action.flag();
                }
            },
        }
    }

    fn finish_exec(&self, i: usize, cand: Option<Dest>) -> (r: Action)
        requires
            self.wf(),
            i < self.mails.len(),
            cand matches Some(d) ==> (d matches Dest::Folder(f) ==> f < self.folders.len()),
        ensures
            r == self.finish(i as int, cand),
    {
        let d = match cand {
            Some(d) => d,
            None => Dest::Folder(self.rest),
        };
        let mut action = Action::folder(0);
        action.set_dest(d);
        if action.folder_idx() == Some(self.rest) && !action.is_flagged() && self.is_ignored(i) {
            action = Action::delete(DropReason::Ignored);
        }
        self.compute_flags(i, &mut action);
        if mentions_any(&self.mails[i].from, &self.addresses) {
            action.read();
        }
        action
    }

    /// Resolves message `i`, memoised in `actions`; `fuel` bounds the chain
    /// of new parents followed.
    fn assort(&self, actions: &mut Vec<Option<Action>>, i: usize, fuel: usize) -> (r: Result<
        Action,
        AssortError,
    >)
        requires
            self.wf(),
            i < self.mails.len(),
            self.is_new(i as int),
            self.memo_ok(old(actions)@),
        ensures
            self.memo_ok(final(actions)@),
            forall|j: int|
                0 <= j < final(actions)@.len() && #[trigger] final(actions)@[j] is Some ==> (old(
                    actions,
                )@[j] is Some || self.is_new(j)),
            r matches Ok(a) ==> self.settles(i as int, a) && final(actions)@[i as int] == Some(a),
            r is Err ==> self.resolve(i as int, fuel as nat) is None,
            forall|j: int|
                0 <= j < old(actions)@.len() && old(actions)@[j] is Some
                    ==> #[trigger] final(actions)@[j] == old(actions)@[j],
        decreases fuel,
    {
        if let Some(a) = actions[i] {
            return Ok(a);
        }
        if fuel == 0 {
            return Err(AssortError::Cycle(i));
        }
        let mut cand: Option<Dest> = None;
        let mut parent_new = false;
        let ghost mut pa_fuel: nat = 0;
        if let Some(pid) = &self.mails[i].parent {
            if let Some(p) = self.first_with_id_exec(pid) {
                proof {
                    lemma_first_true(|j: int| self.mails@[j].id@ == pid@, self.mails.len() as int);
                }
                match self.mails[p].typ {
                    Type::New => {
                        let pa = match self.assort(actions, p, fuel - 1) {
                            Ok(pa) => pa,
                            Err(e) => return Err(e),
                        };
                        proof {
                            let f = choose|f: nat| #[trigger] self.resolve(p as int, f) == Some(pa);
                            pa_fuel = f;
                            self.lemma_resolve_ok(p as int, f);
                            if self.resolve(p as int, (fuel - 1) as nat) is Some {
                                self.lemma_settles_unique(
                                    p as int,
                                    pa,
                                    self.resolve(p as int, (fuel - 1) as nat).unwrap(),
                                );
                            }
                        }
                        cand = Some(pa.dest);
                        parent_new = true;
                    },
                    Type::Folder(f) => {
                        assert(self.mails@[p as int].typ matches Type::Folder(f));
                        cand = Some(Dest::Folder(f));
                    },
                }
            }
        }
        if cand.is_none() || parent_new {
            cand = self.scan_exec(i, cand);
        }
        proof {
            assert(self.initial(i as int) is None);
            if parent_new {
                assert(self.resolve(i as int, pa_fuel + 1) == Some(self.finish(i as int, cand)));
            } else {
                assert(self.resolve(i as int, fuel as nat) == Some(self.finish(i as int, cand)));
            }
        }
        let action = self.finish_exec(i, cand);
        actions.set(i, Some(action));
        Ok(action)
    }
}


fn bytes_eq(a: &Vec<u8>, b: &Vec<u8>) -> (r: bool)
    ensures
        r == (a@ == b@),
{
    if a.len() != b.len() {
        return false;
    }
    let mut k: usize = 0;
    while k < a.len()
        invariant
            a.len() == b.len(),
            k <= a.len(),
            forall|m: int| 0 <= m < k ==> a@[m] == b@[m],
        decreases a.len() - k,
    {
        if a[k] != b[k] {
            return false;
        }
        k = k + 1;
    }
    assert(a@ =~= b@);
    true
}

/// `v` lists, in increasing order, exactly the indices below `n` where `p`
/// holds.
pub open spec fn lists_exactly(v: Seq<usize>, n: int, p: spec_fn(int) -> bool) -> bool {
    &&& forall|a: int, b: int| 0 <= a < b < v.len() ==> v[a] < v[b]
    &&& forall|a: int| 0 <= a < v.len() ==> 0 <= #[trigger] v[a] < n && p(v[a] as int)
    &&& forall|j: int| 0 <= j < n && #[trigger] p(j) ==> v.contains(j as usize)
}

impl Assorter {
    /// What indexing decides for message `i`: a drop, and whether it is a
    /// conflict.
    fn index_decision(&self, i: usize) -> (r: (Option<DropReason>, bool))
        requires
            i < self.mails.len(),
        ensures
            r.0 == self.index_drop(i as int),
            r.1 == self.index_conflict(i as int),
    {
        let mut earlier = false;
        let mut copy = false;
        let mut other = false;
        let mut j: usize = 0;
        while j < i
            invariant
                i < self.mails.len(),
                j <= i,
                earlier == exists|k: int| 0 <= k < j && #[trigger] self.same_id(k, i as int),
                copy == exists|k: int|
                    0 <= k < j && #[trigger] self.same_id(k, i as int) && (self.mails@[k].raw@
                        == self.mails@[i as int].raw@ || self.mails@[k].body@
                        == self.mails@[i as int].body@),
                other == exists|k: int|
                    0 <= k < j && #[trigger] self.same_id(k, i as int) && self.mails@[k].typ
                        != self.mails@[i as int].typ,
            decreases i - j,
        {
            if self.mails[j].id == self.mails[i].id {
                assert(self.same_id(j as int, i as int));
                earlier = true;
                if bytes_eq(&self.mails[j].raw, &self.mails[i].raw) || self.mails[j].body
                    == self.mails[i].body {
                    copy = true;
                }
                if self.mails[j].typ != self.mails[i].typ {
                    other = true;
                }
            }
            j = j + 1;
        }
        let is_new = match self.mails[i].typ {
            Type::New => true,
            Type::Folder(_) => false,
        };
        if is_new && earlier {
            if listed_any(&self.mails[i].list_ids, &self.deduplicate) {
                (Some(DropReason::DuplicateQuirk), false)
            } else if copy {
                (Some(DropReason::VerbatimCopy), false)
            } else {
                (None, true)
            }
        } else if is_new {
            (None, false)
        } else {
            (None, other)
        }
    }

    /// Indexes all messages: the initial actions, or every duplicate that
    /// cannot be settled.
    pub fn index(&self) -> (r: Result<Vec<Option<Action>>, AssortError>)
        requires
            self.wf(),
        ensures
            match r {
                Ok(acts) => {
                    &&& acts@.len() == self.mails.len()
                    &&& forall|j: int|
                        0 <= j < self.mails.len() ==> #[trigger] acts@[j] == self.initial(j)
                    &&& forall|j: int|
                        0 <= j < self.mails.len() ==> !#[trigger] self.index_conflict(j)
                },
                Err(AssortError::Duplicates(v)) => v@.len() > 0 && lists_exactly(
                    v@,
                    self.mails.len() as int,
                    |j: int| self.index_conflict(j),
                ),
                Err(_) => false,
            },
    {
        let mut acts: Vec<Option<Action>> = Vec::new();
        let mut conflicts: Vec<usize> = Vec::new();
        let mut i: usize = 0;
        while i < self.mails.len()
            invariant
                i <= self.mails.len(),
                acts@.len() == i,
                forall|j: int| 0 <= j < i ==> #[trigger] acts@[j] == self.initial(j),
                forall|a: int, b: int|
                    0 <= a < b < conflicts@.len() ==> conflicts@[a] < conflicts@[b],
                forall|a: int|
                    0 <= a < conflicts@.len() ==> #[trigger] conflicts@[a] < i
                        && self.index_conflict(conflicts@[a] as int),
                forall|j: int|
                    0 <= j < i && #[trigger] self.index_conflict(j) ==> conflicts@.contains(
                        j as usize,
                    ),
            decreases self.mails.len() - i,
        {
            let (drop, conflict) = self.index_decision(i);
            let a = match drop {
                Some(reason) => Some(Action::delete(reason)),
                None => None,
            };
            acts.push(a);
            if conflict {
                let ghost old_c = conflicts@;
                conflicts.push(i);
                assert forall|j: int|
                    0 <= j < i + 1 && #[trigger] self.index_conflict(j) implies conflicts@.contains(
                    j as usize,
                ) by {
                    if j < i {
                        let w = choose|w: int| 0 <= w < old_c.len() && old_c[w] == j as usize;
                        assert(conflicts@[w] == j as usize);
                    } else {
                        assert(conflicts@[old_c.len() as int] == i);
                    }
                }
            }
            i = i + 1;
        }
        if conflicts.len() > 0 {
            Err(AssortError::Duplicates(conflicts))
        } else {
            assert forall|j: int| 0 <= j < self.mails.len() implies !#[trigger] self.index_conflict(
                j,
            ) by {
                if self.index_conflict(j) {
                    assert(conflicts@.contains(j as usize));
                }
            }
            Ok(acts)
        }
    }

    /// Resolves every new message.
    fn assort_all(&self, actions: &mut Vec<Option<Action>>) -> (r: Result<(), AssortError>)
        requires
            self.wf(),
            self.memo_ok(old(actions)@),
            forall|j: int|
                0 <= j < old(actions)@.len() && #[trigger] old(actions)@[j] is Some ==> self.is_new(j),
        ensures
            self.memo_ok(final(actions)@),
            forall|j: int|
                0 <= j < final(actions)@.len() && #[trigger] final(actions)@[j] is Some ==> self.is_new(j),
            r is Ok ==> forall|j: int|
                0 <= j < final(actions)@.len() && self.is_new(j) ==> #[trigger] final(actions)@[j] is Some,
            match r {
                Ok(()) => true,
                Err(AssortError::Cycle(i)) => i < self.mails.len() && self.is_new(i as int)
                    && self.resolve(i as int, self.mails.len() as nat) is None,
                Err(_) => false,
            },
    {
        let n = self.mails.len();
        let mut i: usize = 0;
        while i < n
            invariant
                n == self.mails.len(),
                i <= n,
                self.wf(),
                self.memo_ok(actions@),
                forall|j: int|
                    0 <= j < actions@.len() && #[trigger] actions@[j] is Some ==> self.is_new(j),
                forall|j: int| 0 <= j < i && self.is_new(j) ==> #[trigger] actions@[j] is Some,
            decreases n - i,
        {
            let is_new = match self.mails[i].typ {
                Type::New => true,
                Type::Folder(_) => false,
            };
            if is_new {
                let ghost before = actions@;
                match self.assort(actions, i, n) {
                    Ok(_) => {},
                    Err(_) => {
                        return Err(AssortError::Cycle(i));
                    },
                }
                assert forall|j: int| 0 <= j < i + 1 && self.is_new(j) implies #[trigger] actions@[j] is Some by {
                    if j < i {
                        assert(before[j] is Some);
                    }
                }
            }
            i = i + 1;
        }
        Ok(())
    }
}


impl Assorter {
    /// Message `j` belongs to the thread that new message `i` replies to.
    pub open spec fn siblings(&self, i: int, j: int) -> bool {
        self.is_new(i) && (self.mails@[i].parent matches Some(p) && self.mails@[j].id@ == p@)
    }

    /// New messages `i` and `j` agree, or cannot be merged.
    pub open spec fn settled_pair(&self, acts: Seq<Option<Action>>, i: int, j: int) -> bool {
        self.is_new(j) ==> (acts[i].unwrap().dest == acts[j].unwrap().dest
            || crate::folder::spec_max_prio(acts[i].unwrap().dest, acts[j].unwrap().dest) is None)
    }

    /// The destination of `i` disagrees with its thread member `j`.
    pub open spec fn pair_conflict(&self, acts: Seq<Option<Action>>, i: int, j: int) -> bool {
        if self.is_new(j) {
            acts[i].unwrap().dest != acts[j].unwrap().dest
        } else {
            acts[i].unwrap().dest matches Dest::Folder(k) && Type::Folder(k) != self.mails@[j].typ
        }
    }

    /// New message `i` disagrees with some member of its thread.
    pub open spec fn conflicted(&self, acts: Seq<Option<Action>>, i: int) -> bool {
        exists|j: int|
            0 <= j < self.mails.len() && #[trigger] self.siblings(i, j) && self.pair_conflict(
                acts,
                i,
                j,
            )
    }

    /// Exactly the new messages have actions, valid and with exclusive
    /// marks.
    pub open spec fn acts_ok(&self, acts: Seq<Option<Action>>) -> bool {
        &&& acts.len() == self.mails.len()
        &&& forall|j: int|
            0 <= j < acts.len() ==> (#[trigger] acts[j] is Some <==> self.is_new(j))
        &&& forall|j: int|
            0 <= j < acts.len() && #[trigger] acts[j] is Some ==> acts[j].unwrap().wf()
                && self.valid(acts[j].unwrap())
    }

    /// Moves new messages `i` and `j` to the better of their folders.
    fn merge(&self, actions: &mut Vec<Option<Action>>, i: usize, j: usize, d: Dest)
        requires
            self.wf(),
            self.acts_ok(old(actions)@),
            i < self.mails.len(),
            j < self.mails.len(),
            self.is_new(i as int),
            self.is_new(j as int),
            old(actions)@[i as int].unwrap().dest != old(actions)@[j as int].unwrap().dest,
            crate::folder::spec_max_prio(
                old(actions)@[i as int].unwrap().dest,
                old(actions)@[j as int].unwrap().dest,
            ) == Some(d),
        ensures
            self.acts_ok(final(actions)@),
            potential(final(actions)@) < potential(old(actions)@),
            keeps_drops(old(actions)@, final(actions)@),
            forall|k: int|
                0 <= k < old(actions)@.len() ==> improved(
                    #[trigger] old(actions)@[k],
                    final(actions)@[k],
                ),
            final(actions)@[i as int].unwrap().dest == d,
            final(actions)@[j as int].unwrap().dest == d,
            final(actions)@[i as int] == Some(
                self.with_flags(i as int, Action { dest: d, ..old(actions)@[i as int].unwrap() }),
            ),
    {
        let ghost s0 = actions@;
        let mut a = actions[i].unwrap();
        a.set_dest(d);
        self.compute_flags(i, &mut a);
        let ghost s1 = s0.update(i as int, Some(a));
        proof {
            lemma_potential_update(s0, i as int, Some(a));
        }
        actions.set(i, Some(a));
        let mut b = actions[j].unwrap();
        b.set_dest(d);
        self.compute_flags(j, &mut b);
        proof {
            lemma_potential_update(s1, j as int, Some(b));
        }
        actions.set(j, Some(b));
    }

    /// Reconciles thread siblings until no pass changes anything, and
    /// returns the number of passes made: every pass but the last moves some
    /// message to a more preferred folder, so there are at most one more
    /// than the sum of the folder indices at the start.
    pub fn settle_threads(&self, actions: &mut Vec<Option<Action>>) -> (passes: usize)
        requires
            self.wf(),
            self.acts_ok(old(actions)@),
        ensures
            passes <= potential(old(actions)@) + 1,
            self.acts_ok(final(actions)@),
            forall|k: int|
                0 <= k < old(actions)@.len() ==> improved(
                    #[trigger] old(actions)@[k],
                    final(actions)@[k],
                ),
            forall|i: int, j: int|
                0 <= i < self.mails.len() && 0 <= j < self.mails.len() && #[trigger] self.siblings(
                    i,
                    j,
                ) ==> self.settled_pair(final(actions)@, i, j),
            keeps_drops(old(actions)@, final(actions)@),
    {
        let ghost start = actions@;
        let n = self.mails.len();
        let mut changed = true;
        let mut passes: usize = 0;
        while changed
            invariant
                passes + potential(actions@) <= potential(start) + (if changed {
                    0int
                } else {
                    1int
                }),
                n == self.mails.len(),
                start.len() == n,
                self.wf(),
                self.acts_ok(actions@),
                forall|k: int|
                    0 <= k < start.len() ==> improved(#[trigger] start[k], actions@[k]),
                keeps_drops(start, actions@),
                !changed ==> forall|i: int, j: int|
                    0 <= i < n && 0 <= j < n && #[trigger] self.siblings(i, j)
                        ==> self.settled_pair(actions@, i, j),
            decreases potential(actions@) + (if changed { 1int } else { 0int }),
        {
            changed = false;
            passes = passes.saturating_add(1);
            let ghost pass_start = actions@;
            let mut i: usize = 0;
            while i < n
                invariant
                    n == self.mails.len(),
                    start.len() == n,
                    i <= n,
                    self.wf(),
                    self.acts_ok(actions@),
                    forall|k: int|
                        0 <= k < start.len() ==> improved(#[trigger] start[k], actions@[k]),
                keeps_drops(start, actions@),
                    !changed ==> actions@ == pass_start,
                    changed ==> potential(actions@) < potential(pass_start),
                    !changed ==> forall|a: int, b: int|
                        0 <= a < i && 0 <= b < n && #[trigger] self.siblings(a, b)
                            ==> self.settled_pair(actions@, a, b),
                decreases n - i,
            {
                let is_new = match self.mails[i].typ {
                    Type::New => true,
                    Type::Folder(_) => false,
                };
                if is_new {
                    if let Some(pid) = &self.mails[i].parent {
                        let mut j: usize = 0;
                        while j < n
                            invariant
                                n == self.mails.len(),
                                start.len() == n,
                                i < n,
                                j <= n,
                                self.wf(),
                                self.is_new(i as int),
                                self.mails@[i as int].parent == Some(*pid),
                                self.acts_ok(actions@),
                                forall|k: int|
                                    0 <= k < start.len() ==> improved(
                                        #[trigger] start[k],
                                        actions@[k],
                                    ),
                                keeps_drops(start, actions@),
                                !changed ==> actions@ == pass_start,
                                changed ==> potential(actions@) < potential(pass_start),
                                !changed ==> forall|a: int, b: int|
                                    0 <= a < i && 0 <= b < n && #[trigger] self.siblings(a, b)
                                        ==> self.settled_pair(actions@, a, b),
                                !changed ==> forall|b: int|
                                    0 <= b < j && #[trigger] self.siblings(i as int, b)
                                        ==> self.settled_pair(actions@, i as int, b),
                            decreases n - j,
                        {
                            let sib_new = match self.mails[j].typ {
                                Type::New => true,
                                Type::Folder(_) => false,
                            };
                            if self.mails[j].id == *pid && sib_new {
                                let ours = actions[i].unwrap().dest();
                                let theirs = actions[j].unwrap().dest();
                                if ours != theirs {
                                    if let Some(d) = Dest::max_prio(ours, theirs) {
                                        let ghost before = actions@;
                                        self.merge(actions, i, j, d);
                                        assert forall|k: int|
                                            0 <= k < start.len() implies improved(
                                            #[trigger] start[k],
                                            actions@[k],
                                        ) by {
                                            assert(improved(start[k], before[k]));
                                            assert(improved(before[k], actions@[k]));
                                        }
                                        changed = true;
                                    }
                                }
                            }
                            j = j + 1;
                        }
                    }
                }
                i = i + 1;
            }
        }
        passes
    }
}


impl Assorter {
    fn is_conflicted(&self, actions: &Vec<Option<Action>>, i: usize) -> (r: bool)
        requires
            self.acts_ok(actions@),
            i < self.mails.len(),
        ensures
            r == self.conflicted(actions@, i as int),
    {
        let is_new = match self.mails[i].typ {
            Type::New => true,
            Type::Folder(_) => false,
        };
        if !is_new {
            return false;
        }
        let pid = match &self.mails[i].parent {
            Some(p) => p,
            None => {
                return false;
            },
        };
        let ours = actions[i].unwrap().dest();
        let mut j: usize = 0;
        while j < self.mails.len()
            invariant
                self.acts_ok(actions@),
                i < self.mails.len(),
                j <= self.mails.len(),
                self.is_new(i as int),
                self.mails@[i as int].parent == Some(*pid),
                ours == actions@[i as int].unwrap().dest,
                forall|b: int|
                    0 <= b < j && #[trigger] self.siblings(i as int, b) ==> !self.pair_conflict(
                        actions@,
                        i as int,
                        b,
                    ),
            decreases self.mails.len() - j,
        {
            if self.mails[j].id == *pid {
                assert(self.siblings(i as int, j as int));
                let bad = match self.mails[j].typ {
                    Type::New => ours != actions[j].unwrap().dest(),
                    Type::Folder(f) => match ours {
                        Dest::Folder(k) => k != f,
                        Dest::Drop(_) => false,
                    },
                };
                if bad {
                    return true;
                }
            }
            j = j + 1;
        }
        false
    }

    /// Reconciles the destinations of thread siblings.
    ///
    /// New messages replying to the same ID move, pairwise, to the more
    /// preferred of their folders until nothing changes. Afterwards every new
    /// message must agree with its thread: with each new sibling, and with
    /// each filed one unless it is dropped. Those that do not are reported.
    pub fn fixup_thread_siblings(&self, actions: &mut Vec<Option<Action>>) -> (r: Result<
        (),
        AssortError,
    >)
        requires
            self.wf(),
            self.acts_ok(old(actions)@),
        ensures
            keeps_drops(old(actions)@, final(actions)@),
            self.acts_ok(final(actions)@),
            forall|k: int|
                0 <= k < old(actions)@.len() ==> improved(
                    #[trigger] old(actions)@[k],
                    final(actions)@[k],
                ),
            forall|i: int, j: int|
                0 <= i < self.mails.len() && 0 <= j < self.mails.len() && #[trigger] self.siblings(
                    i,
                    j,
                ) ==> self.settled_pair(final(actions)@, i, j),
            match r {
                Ok(()) => forall|i: int|
                    0 <= i < self.mails.len() ==> !#[trigger] self.conflicted(final(actions)@, i),
                Err(AssortError::Threads(v)) => v@.len() > 0 && lists_exactly(
                    v@,
                    self.mails.len() as int,
                    |i: int| self.conflicted(final(actions)@, i),
                ),
                Err(_) => false,
            },
    {
        let _passes = self.settle_threads(actions);
        let mut bad: Vec<usize> = Vec::new();
        let mut i: usize = 0;
        while i < self.mails.len()
            invariant
                self.acts_ok(actions@),
                i <= self.mails.len(),
                forall|a: int, b: int| 0 <= a < b < bad@.len() ==> bad@[a] < bad@[b],
                forall|a: int|
                    0 <= a < bad@.len() ==> #[trigger] bad@[a] < i && self.conflicted(
                        actions@,
                        bad@[a] as int,
                    ),
                forall|j: int|
                    0 <= j < i && #[trigger] self.conflicted(actions@, j) ==> bad@.contains(
                        j as usize,
                    ),
            decreases self.mails.len() - i,
        {
            if self.is_conflicted(actions, i) {
                let ghost old_b = bad@;
                bad.push(i);
                assert forall|j: int|
                    0 <= j < i + 1 && #[trigger] self.conflicted(actions@, j) implies bad@.contains(
                    j as usize,
                ) by {
                    if j < i {
                        let w = choose|w: int| 0 <= w < old_b.len() && old_b[w] == j as usize;
                        assert(bad@[w] == j as usize);
                    } else {
                        assert(bad@[old_b.len() as int] == i);
                    }
                }
            }
            i = i + 1;
        }
        if bad.len() > 0 {
            Err(AssortError::Threads(bad))
        } else {
            assert forall|j: int| 0 <= j < self.mails.len() implies !#[trigger] self.conflicted(
                actions@,
                j,
            ) by {
                if self.conflicted(actions@, j) {
                    assert(bad@.contains(j as usize));
                }
            }
            Ok(())
        }
    }

    /// The action of every new message: indexed, resolved along reply
    /// chains, and reconciled within threads.
    pub fn plan(&self) -> (r: Result<Vec<Option<Action>>, AssortError>)
        requires
            self.wf(),
        ensures
            match r {
                Ok(acts) => {
                    &&& self.acts_ok(acts@)
                    &&& forall|j: int|
                        0 <= j < self.mails.len() ==> !#[trigger] self.index_conflict(j)
                    &&& forall|j: int|
                        0 <= j < self.mails.len() ==> !#[trigger] self.conflicted(acts@, j)
                    &&& forall|j: int|
                        0 <= j < self.mails.len() && #[trigger] self.initial(j) is Some
                            ==> acts@[j] == self.initial(j)
                    &&& forall|i: int, j: int|
                        0 <= i < self.mails.len() && 0 <= j < self.mails.len()
                            && #[trigger] self.siblings(i, j) ==> self.settled_pair(acts@, i, j)
                    &&& forall|j: int|
                        0 <= j < self.mails.len() && #[trigger] self.is_new(j) ==> exists|a: Action|
                            self.settles(j, a) && improved(Some(a), acts@[j])
                },
                Err(AssortError::Duplicates(v)) => v@.len() > 0 && lists_exactly(
                    v@,
                    self.mails.len() as int,
                    |j: int| self.index_conflict(j),
                ),
                Err(AssortError::Cycle(i)) => i < self.mails.len() && self.is_new(i as int)
                    && self.resolve(i as int, self.mails.len() as nat) is None && (forall|j: int|
                    0 <= j < self.mails.len() ==> !#[trigger] self.index_conflict(j)),
                Err(AssortError::Threads(v)) => (forall|j: int|
                    0 <= j < self.mails.len() ==> !#[trigger] self.index_conflict(j)) && v@.len() > 0 && exists|acts: Seq<Option<Action>>|
                    self.acts_ok(acts) && lists_exactly(
                        v@,
                        self.mails.len() as int,
                        |i: int| self.conflicted(acts, i),
                    ),
            },
    {
        let mut actions = match self.index() {
            Ok(a) => a,
            Err(e) => {
                return Err(e);
            },
        };
        proof {
            assert forall|j: int|
                0 <= j < actions@.len() && #[trigger] actions@[j] is Some implies self.settles(
                j,
                actions@[j].unwrap(),
            ) by {
                assert(self.resolve(j, 0) == Some(actions@[j].unwrap()));
            }
            assert forall|j: int|
                0 <= j < actions@.len() && #[trigger] actions@[j] is Some implies self.is_new(j) by {
                assert(self.initial(j) is Some);
            }
        }
        match self.assort_all(&mut actions) {
            Ok(()) => {},
            Err(e) => {
                return Err(e);
            },
        }
        proof {
            assert forall|j: int|
                0 <= j < actions@.len() && #[trigger] actions@[j] is Some implies actions@[j].unwrap().wf()
                    && self.valid(actions@[j].unwrap()) by {
                let a = actions@[j].unwrap();
                let f = choose|f: nat| #[trigger] self.resolve(j, f) == Some(a);
                self.lemma_resolve_ok(j, f);
            }
        }
        let ghost resolved = actions@;
        match self.fixup_thread_siblings(&mut actions) {
            Ok(()) => {},
            Err(e) => {
                assert(self.acts_ok(actions@));
                return Err(e);
            },
        }
        proof {
            assert forall|j: int|
                0 <= j < self.mails.len() && #[trigger] self.is_new(j) implies exists|a: Action|
                    self.settles(j, a) && improved(Some(a), actions@[j]) by {
                let a = resolved[j].unwrap();
                assert(self.settles(j, a));
                assert(improved(resolved[j], actions@[j]));
            }
        }
        proof {
            assert forall|j: int|
                0 <= j < self.mails.len() && #[trigger] self.initial(j) is Some implies actions@[j]
                == self.initial(j) by {
                assert(resolved[j] == self.initial(j));
                assert(resolved[j].unwrap().dest is Drop);
                assert(keeps_drops(resolved, actions@));
            }
        }
        Ok(actions)
    }
}


impl Assorter {
    /// When no two messages share a `Message-ID`, indexing finds no conflict
    /// and drops nothing.
    pub proof fn lemma_unique_ids_index_clean(&self)
        requires
            forall|i: int, j: int|
                0 <= i < j < self.mails.len() ==> !#[trigger] self.same_id(i, j),
        ensures
            forall|j: int| 0 <= j < self.mails.len() ==> !#[trigger] self.index_conflict(j),
            forall|j: int| 0 <= j < self.mails.len() ==> #[trigger] self.initial(j) is None,
    {
        assert forall|j: int| 0 <= j < self.mails.len() implies !#[trigger] self.has_earlier(j) by {
            if self.has_earlier(j) {
                let k = choose|k: int| 0 <= k < j && #[trigger] self.same_id(k, j);
                assert(!self.same_id(k, j));
            }
        }
        assert forall|j: int| 0 <= j < self.mails.len() implies !#[trigger] self.has_other_place(j) by {
            if self.has_other_place(j) {
                let k = choose|k: int| 0 <= k < j && #[trigger] self.same_id(k, j) && self.mails@[k].typ != self.mails@[j].typ;
                assert(!self.same_id(k, j));
            }
        }
        assert forall|j: int| 0 <= j < self.mails.len() implies !#[trigger] self.index_conflict(j) by {
            assert(!self.has_earlier(j));
            assert(!self.has_other_place(j));
        }
        assert forall|j: int| 0 <= j < self.mails.len() implies #[trigger] self.initial(j) is None by {
            assert(!self.has_earlier(j));
        }
    }

    /// A new message byte-identical to an earlier one with its ID, on no
    /// deduplicated list, is dropped as a verbatim copy; the earlier one gets
    /// no action from indexing.
    pub proof fn lemma_verbatim_copy_dropped(&self, i: int, j: int)
        requires
            0 <= j < i < self.mails.len(),
            self.is_new(i),
            self.same_id(j, i),
            self.mails@[j].raw@ == self.mails@[i].raw@,
            !any_listed(self.mails@[i].list_ids@, self.deduplicate@),
            forall|k: int| 0 <= k < j ==> !#[trigger] self.same_id(k, j),
        ensures
            self.initial(i) == Some(
                Action {
                    dest: Dest::Drop(DropReason::VerbatimCopy),
                    mark_read: false,
                    mark_flagged: false,
                },
            ),
            self.initial(j) is None,
            !self.index_conflict(i),
    {
        assert(self.has_earlier(i));
        assert(self.has_copy(i));
        if self.has_earlier(j) {
            let k = choose|k: int| 0 <= k < j && #[trigger] self.same_id(k, j);
            assert(!self.same_id(k, j));
        }
    }

    /// A new message on a deduplicated list that shares an earlier message's
    /// ID is dropped as a duplicate, whatever its content.
    pub proof fn lemma_duplicate_quirk_dropped(&self, i: int, j: int)
        requires
            0 <= j < i < self.mails.len(),
            self.is_new(i),
            self.same_id(j, i),
            any_listed(self.mails@[i].list_ids@, self.deduplicate@),
        ensures
            self.initial(i) == Some(
                Action {
                    dest: Dest::Drop(DropReason::DuplicateQuirk),
                    mark_read: false,
                    mark_flagged: false,
                },
            ),
            !self.index_conflict(i),
    {
        assert(self.has_earlier(i));
    }

    /// A message that names the user in `To` or `Cc` is never dropped by the
    /// ignore rule: it keeps its routed folder, or the catch-all.
    pub proof fn lemma_mention_not_ignored(&self, i: int, cand: Option<Dest>)
        requires
            self.ignore matches Some(ig) && (mentions(self.mails@[i].to@, ig.name@) || mentions(
                self.mails@[i].cc@,
                ig.name@,
            )),
        ensures
            !self.ignored(i),
            self.finish(i, cand).dest == match cand {
                Some(d) => d,
                None => Dest::Folder(self.rest),
            },
    {
    }

    /// A message from one of the user's addresses is resolved as read and
    /// not flagged, whatever the keywords say.
    pub proof fn lemma_own_mail_read(&self, i: int, fuel: nat)
        requires
            self.initial(i) is None,
            self.resolve(i, fuel) is Some,
            self.from_own(i),
        ensures
            self.resolve(i, fuel).unwrap().mark_read,
            !self.resolve(i, fuel).unwrap().mark_flagged,
    {
    }

    /// A reply to a new parent that no preferred folder's keywords claim,
    /// and that the ignore rule leaves alone, takes its parent's destination.
    pub proof fn lemma_reply_inherits(&self, i: int, p: int, fuel: nat)
        requires
            fuel > 0,
            self.initial(i) is None,
            self.parent_of(i) == Some(p),
            self.is_new(p),
            self.resolve(p, (fuel - 1) as nat) is Some,
            ({
                let d = self.resolve(p, (fuel - 1) as nat).unwrap().dest;
                &&& self.scan(i, Some(d)) == Some(d)
                &&& !(d == Dest::Folder(self.rest) && self.ignored(i))
            }),
        ensures
            self.resolve(i, fuel) is Some,
            self.resolve(i, fuel).unwrap().dest == self.resolve(p, (fuel - 1) as nat).unwrap().dest,
    {
    }

    /// After reconciliation without conflicts, two new replies to the same
    /// message and that message, when it is new, share one destination, no
    /// worse than where any of the three stood before.
    pub proof fn lemma_siblings_converge(
        &self,
        before: Seq<Option<Action>>,
        after: Seq<Option<Action>>,
        c1: int,
        c2: int,
        p: int,
    )
        requires
            self.acts_ok(after),
            before.len() == after.len(),
            forall|k: int| 0 <= k < before.len() ==> improved(#[trigger] before[k], after[k]),
            forall|j: int| 0 <= j < self.mails.len() ==> !#[trigger] self.conflicted(after, j),
            0 <= c1 < self.mails.len(),
            0 <= c2 < self.mails.len(),
            0 <= p < self.mails.len(),
            self.is_new(p),
            self.siblings(c1, p),
            self.siblings(c2, p),
        ensures
            after[c1].unwrap().dest == after[p].unwrap().dest,
            after[c2].unwrap().dest == after[p].unwrap().dest,
            forall|k: int|
                (k == c1 || k == c2 || k == p) ==> (#[trigger] before[k].unwrap().dest matches Dest::Folder(x)
                    ==> (after[p].unwrap().dest matches Dest::Folder(y) && y <= x)),
    {
        assert(!self.conflicted(after, c1));
        assert(!self.conflicted(after, c2));
        assert(improved(before[c1], after[c1]));
        assert(improved(before[c2], after[c2]));
        assert(improved(before[p], after[p]));
    }
}

} // verus!
