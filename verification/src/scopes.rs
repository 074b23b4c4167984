//! The compiler's table of lexical scopes and local variables.

use vstd::prelude::*;
use vstd::string::*;
use crate::text::{agrees, failure, fails_with};

verus! {

/// How a closure reaches one captured variable: a slot of the enclosing
/// function's frame, or an entry of the enclosing closure's own captures.
#[derive(Clone, Copy, Debug, PartialEq, Eq, Structural)]
pub struct Capture {
    pub is_local: bool,
    pub index: u8,
}

/// A local variable: whether its initializer is done, whether a closure
/// has captured it, and its slot in the frame.
#[derive(Clone, Copy, Debug, PartialEq, Eq, Structural)]
pub struct Local {
    pub is_init: bool,
    pub is_captured: bool,
    pub index: u8,
}

impl Local {
    pub fn new_uninit(index: u8) -> (r: Self)
        ensures
            r == (Local { is_init: false, is_captured: false, index }),
    {
        Local { is_init: false, is_captured: false, index }
    }

    pub fn mark_init(&mut self)
        ensures
            *final(self) == (Local { is_init: true, ..*old(self) }),
    {
        self.is_init = true;
    }

    pub fn mark_captured(&mut self)
        ensures
            *final(self) == (Local { is_captured: true, ..*old(self) }),
    {
        self.is_captured = true;
    }
}

/// A name and the local variable it stands for.
#[derive(Debug)]
pub struct Entry {
    pub name: String,
    pub local: Local,
}

/// The mathematical model of an [`Entry`].
pub struct Binding {
    pub name: Seq<char>,
    pub local: Local,
}

impl View for Entry {
    type V = Binding;

    open spec fn view(&self) -> Binding {
        Binding { name: self.name@, local: self.local }
    }
}

/// The position of the latest binding of a name in a scope.
pub open spec fn find(scope: Seq<Binding>, name: Seq<char>) -> Option<int>
    decreases scope.len(),
{
    if scope.len() == 0 {
        None
    } else if scope.last().name == name {
        Some(scope.len() - 1)
    } else {
        find(scope.drop_last(), name)
    }
}

/// A found position is a position, and the name is bound there.
pub proof fn lemma_find(scope: Seq<Binding>, name: Seq<char>)
    ensures
        match find(scope, name) {
            Some(at) => 0 <= at < scope.len() && scope[at].name == name,
            None => true,
        },
    decreases scope.len(),
{
    if scope.len() > 0 && scope.last().name != name {
        lemma_find(scope.drop_last(), name);
    }
}

/// The scope with the local variable at a position replaced.
pub open spec fn with_local(scope: Seq<Binding>, at: int, local: Local) -> Seq<Binding> {
    scope.update(at, Binding { name: scope[at].name, local })
}

/// The local variables of one block, in the order of their declaration.
#[derive(Debug)]
pub struct Scope {
    pub entries: Vec<Entry>,
}

impl View for Scope {
    type V = Seq<Binding>;

    open spec fn view(&self) -> Seq<Binding> {
        self.entries@.map_values(|entry: Entry| entry@)
    }
}

impl Scope {
    pub fn new() -> (r: Self)
        ensures
            r@ == Seq::<Binding>::empty(),
    {
        let r = Scope { entries: Vec::new() };
        assert(r@ =~= Seq::<Binding>::empty());
        r
    }

    /// The position of the latest binding of a name.
    fn position(&self, name: &str) -> (r: Option<usize>)
        ensures
            match r {
                Some(at) => find(self@, name@) == Some(at as int) && at < self.entries.len(),
                None => find(self@, name@).is_none(),
            },
    {
        let mut i = self.entries.len();
        assert(self@.take(i as int) =~= self@);
        while i > 0
            invariant
                i <= self.entries.len(),
                find(self@, name@) == find(self@.take(i as int), name@),
            decreases i,
        {
            i -= 1;
            assert(self@.take(i + 1).drop_last() =~= self@.take(i as int));
            if self.entries[i].name.as_str().to_owned() == name.to_owned() {
                return Some(i);
            }
        }
        None
    }

    /// Whether the scope binds the name.
    pub fn has(&self, name: &str) -> (r: bool)
        ensures
            r == find(self@, name@).is_some(),
    {
        self.position(name).is_some()
    }

    /// Appends a local variable that is not initialized yet.
    pub fn define(&mut self, name: String, index: u8)
        ensures
            final(self)@ == old(self)@.push(
                Binding { name: name@, local: Local { is_init: false, is_captured: false, index } },
            ),
    {
        self.entries.push(Entry { name, local: Local::new_uninit(index) });
        assert(self@ =~= old(self)@.push(
            Binding { name: name@, local: Local { is_init: false, is_captured: false, index } },
        ));
    }

    /// The latest local variable of the name.
    pub fn get(&self, name: &str) -> (r: Option<&Local>)
        ensures
            match find(self@, name@) {
                Some(at) => r.is_some() && *r.unwrap() == self@[at].local,
                None => r.is_none(),
            },
    {
        match self.position(name) {
            Some(at) => Some(&self.entries[at].local),
            None => None,
        }
    }

    /// Replaces the latest local variable of the name; reports whether
    /// there is one.
    pub fn set(&mut self, name: &str, local: Local) -> (r: bool)
        ensures
            match find(old(self)@, name@) {
                Some(at) => r && final(self)@ == with_local(old(self)@, at, local),
                None => !r && final(self)@ == old(self)@,
            },
    {
        match self.position(name) {
            Some(at) => {
                let entry = Entry { name: self.entries[at].name.clone(), local };
                self.entries[at] = entry;
                assert(self@ =~= with_local(old(self)@, at as int, local));
                true
            },
            None => false,
        }
    }

    /// The latest local variable of the name, to be changed in place.
    pub fn get_mut(&mut self, name: &str) -> (r: Option<&mut Local>)
        ensures
            match find(old(self)@, name@) {
                Some(at) => r.is_some() && *r.unwrap() == old(self)@[at].local && final(self)@
                    == with_local(old(self)@, at, *final(r.unwrap())),
                None => r.is_none() && final(self)@ == old(self)@,
            },
    {
        match self.position(name) {
            Some(at) => Some(&mut self.entries[at].local),
            None => None,
        }
    }

    /// The number of local variables.
    pub fn len(&self) -> (r: usize)
        ensures
            r == self@.len(),
    {
        self.entries.len()
    }
}

/// The number of local variables in a sequence of scopes.
pub open spec fn total(scopes: Seq<Seq<Binding>>) -> nat
    decreases scopes.len(),
{
    if scopes.len() == 0 {
        0
    } else {
        total(scopes.drop_last()) + scopes.last().len()
    }
}

/// The innermost scope that binds a name.
pub open spec fn innermost(scopes: Seq<Seq<Binding>>, name: Seq<char>) -> Option<int>
    decreases scopes.len(),
{
    if scopes.len() == 0 {
        None
    } else if find(scopes.last(), name).is_some() {
        Some(scopes.len() - 1)
    } else {
        innermost(scopes.drop_last(), name)
    }
}

/// The innermost scope that binds a name is a scope, and binds the name.
pub proof fn lemma_innermost(scopes: Seq<Seq<Binding>>, name: Seq<char>)
    ensures
        match innermost(scopes, name) {
            Some(depth) => 0 <= depth < scopes.len() && find(scopes[depth], name).is_some(),
            None => true,
        },
    decreases scopes.len(),
{
    if scopes.len() > 0 && find(scopes.last(), name).is_none() {
        lemma_innermost(scopes.drop_last(), name);
    }
}

/// The mathematical model of [`Scopes`].
pub struct ScopesView {
    /// The open blocks, the innermost last.
    pub scopes: Seq<Seq<Binding>>,
    /// The number of slots in use: one for the function itself, and one for
    /// each local variable.
    pub count: nat,
}

impl ScopesView {
    /// The table of a function that has declared nothing.
    pub open spec fn new() -> ScopesView {
        ScopesView { scopes: Seq::empty(), count: 1 }
    }

    /// The slots in use are slot zero and those of the local variables, they
    /// fit one byte, and no local variable has slot zero.
    pub open spec fn wf(self) -> bool {
        &&& self.count == 1 + total(self.scopes)
        &&& self.count <= 255
        &&& forall|depth: int, at: int|
            0 <= depth < self.scopes.len() && 0 <= at < self.scopes[depth].len() ==> (
            #[trigger] self.scopes[depth][at]).local.index >= 1
    }

    pub open spec fn push(self) -> ScopesView {
        ScopesView { scopes: self.scopes.push(Seq::empty()), ..self }
    }

    /// The table without its innermost scope.
    pub open spec fn pop(self) -> ScopesView {
        ScopesView {
            scopes: self.scopes.drop_last(),
            count: (self.count - self.scopes.last().len()) as nat,
        }
    }

    /// The local variable that a name stands for: the latest one of the
    /// innermost scope that binds the name.
    pub open spec fn lookup(self, name: Seq<char>) -> Option<Local> {
        match innermost(self.scopes, name) {
            Some(depth) => Some(
                self.scopes[depth][find(self.scopes[depth], name).unwrap()].local,
            ),
            None => None,
        }
    }

    /// The table with the local variable that a name stands for replaced.
    pub open spec fn replace(self, name: Seq<char>, local: Local) -> ScopesView {
        match innermost(self.scopes, name) {
            Some(depth) => ScopesView {
                scopes: self.scopes.update(
                    depth,
                    with_local(
                        self.scopes[depth],
                        find(self.scopes[depth], name).unwrap(),
                        local,
                    ),
                ),
                ..self
            },
            None => self,
        }
    }

    /// Declaring a local variable in the innermost scope.
    pub open spec fn define_uninit_local(self, name: Seq<char>) -> Result<ScopesView, Seq<char>> {
        if self.scopes.len() == 0 {
            Err("Can't define a local variable without scope."@)
        } else if self.count + 1 > 255 {
            Err("Too many local variables in function."@)
        } else {
            Ok(
                ScopesView {
                    scopes: self.scopes.update(
                        self.scopes.len() - 1,
                        self.scopes.last().push(
                            Binding {
                                name,
                                local: Local {
                                    is_init: false,
                                    is_captured: false,
                                    index: self.count as u8,
                                },
                            },
                        ),
                    ),
                    count: self.count + 1,
                },
            )
        }
    }

    /// The table with the local variable of a name marked as initialized.
    pub open spec fn mark_init_local(self, name: Seq<char>) -> ScopesView {
        match self.lookup(name) {
            Some(local) => self.replace(name, Local { is_init: true, ..local }),
            None => self,
        }
    }

    /// The table with the local variable of a name marked as captured.
    pub open spec fn mark_captured_local(self, name: Seq<char>) -> ScopesView {
        match self.lookup(name) {
            Some(local) => self.replace(name, Local { is_captured: true, ..local }),
            None => self,
        }
    }

    /// Whether the innermost scope binds a name; `None` without a scope.
    pub open spec fn current_has(self, name: Seq<char>) -> Option<bool> {
        if self.scopes.len() == 0 {
            None
        } else {
            Some(find(self.scopes.last(), name).is_some())
        }
    }

    /// The local variable that a use of a name reads or writes. A variable
    /// whose initializer is not done cannot be used.
    pub open spec fn resolve_local(self, name: Seq<char>) -> Result<Option<Local>, Seq<char>> {
        match self.lookup(name) {
            Some(local) => if local.is_init {
                Ok(Some(local))
            } else {
                Err("Can't read local variable in its own initializer."@)
            },
            None => Ok(None),
        }
    }
}

/// The scopes of one function.
#[derive(Debug)]
pub struct Scopes {
    pub scopes: Vec<Scope>,
    pub count: u8,
}

/// The models of a sequence of scopes.
pub open spec fn scope_views(scopes: Seq<Scope>) -> Seq<Seq<Binding>> {
    scopes.map_values(|scope: Scope| scope@)
}

impl View for Scopes {
    type V = ScopesView;

    open spec fn view(&self) -> ScopesView {
        ScopesView { scopes: scope_views(self.scopes@), count: self.count as nat }
    }
}

/// The local variable that a name stands for is one of the table.
pub proof fn lemma_lookup(scopes: ScopesView, name: Seq<char>)
    ensures
        match innermost(scopes.scopes, name) {
            Some(depth) => 0 <= depth < scopes.scopes.len() && find(
                scopes.scopes[depth],
                name,
            ).is_some() && 0 <= find(scopes.scopes[depth], name).unwrap()
                < scopes.scopes[depth].len(),
            None => true,
        },
        scopes.wf() && scopes.lookup(name).is_some() ==> scopes.lookup(name).unwrap().index >= 1,
{
    lemma_innermost(scopes.scopes, name);
    match innermost(scopes.scopes, name) {
        Some(depth) => {
            lemma_find(scopes.scopes[depth], name);
        },
        None => {},
    }
}

/// Replacing one local variable keeps the number of local variables.
pub proof fn lemma_total_update(scopes: Seq<Seq<Binding>>, depth: int, scope: Seq<Binding>)
    requires
        0 <= depth < scopes.len(),
    ensures
        total(scopes.update(depth, scope)) == total(scopes) - scopes[depth].len() + scope.len(),
    decreases scopes.len(),
{
    if depth == scopes.len() - 1 {
        assert(scopes.update(depth, scope).drop_last() =~= scopes.drop_last());
    } else {
        lemma_total_update(scopes.drop_last(), depth, scope);
        assert(scopes.update(depth, scope).drop_last() =~= scopes.drop_last().update(depth, scope));
    }
}

impl Scopes {
    pub fn new() -> (r: Self)
        ensures
            r@ == ScopesView::new(),
            r@.wf(),
    {
        let r = Scopes {
            scopes: Vec::new(),
            count: 1,  // slot zero of the frame
        };
        assert(r@.scopes =~= Seq::empty());
        r
    }

    /// Opens a block.
    pub fn push(&mut self)
        ensures
            final(self)@ == old(self)@.push(),
            old(self)@.wf() ==> final(self)@.wf(),
    {
        self.scopes.push(Scope::new());
        assert(self@.scopes =~= old(self)@.scopes.push(Seq::empty()));
        assert(self@.scopes.drop_last() =~= old(self)@.scopes);
    }

    /// Closes the innermost block and returns it; `None` without a block.
    pub fn pop(&mut self) -> (r: Option<Scope>)
        requires
            old(self)@.wf(),
        ensures
            final(self)@.wf(),
            old(self)@.scopes.len() == 0 ==> r.is_none() && final(self)@ == old(self)@,
            old(self)@.scopes.len() > 0 ==> r.is_some() && r.unwrap()@ == old(self)@.scopes.last()
                && final(self)@ == old(self)@.pop(),
    {
        match self.scopes.pop() {
            Some(scope) => {
                assert(self@.scopes =~= old(self)@.scopes.drop_last());
                assert(scope@ == old(self)@.scopes.last());
                self.count = self.count - scope.len() as u8;
                Some(scope)
            },
            None => None,
        }
    }

    pub fn is_empty(&self) -> (r: bool)
        ensures
            r == (self@.scopes.len() == 0),
    {
        self.scopes.len() == 0
    }

    /// Whether the innermost block binds a name; `None` without a block.
    pub fn current_has(&self, name: &str) -> (r: Option<bool>)
        ensures
            r == self@.current_has(name@),
    {
        let depth = self.scopes.len();
        if depth == 0 {
            None
        } else {
            Some(self.scopes[depth - 1].has(name))
        }
    }

    /// Declares a local variable in the innermost block. Its initializer is
    /// not done yet.
    pub fn define_uninit_local(&mut self, name: String) -> (r: Result<(), String>)
        requires
            old(self)@.wf(),
        ensures
            match old(self)@.define_uninit_local(name@) {
                Ok(scopes) => r is Ok && final(self)@ == scopes && final(self)@.wf(),
                Err(message) => fails_with(r, message) && final(self)@ == old(self)@,
            },
    {
        let index = self.count;
        if self.scopes.len() == 0 {
            return failure("Can't define a local variable without scope.");
        }
        if index >= 255 {
            return failure("Too many local variables in function.");
        }
        let mut scope = self.scopes.pop().unwrap();
        let ghost before = scope@;
        scope.define(name, index);
        self.scopes.push(scope);
        self.count = index + 1;
        proof {
            assert(self@.scopes =~= old(self)@.scopes.update(
                old(self)@.scopes.len() - 1,
                before.push(
                    Binding {
                        name: name@,
                        local: Local { is_init: false, is_captured: false, index },
                    },
                ),
            ));
            lemma_total_update(
                old(self)@.scopes,
                old(self)@.scopes.len() - 1,
                self@.scopes.last(),
            );
        }
        Ok(())
    }

    /// The innermost block that binds a name.
    fn innermost(&self, name: &str) -> (r: Option<usize>)
        ensures
            match r {
                Some(depth) => innermost(self@.scopes, name@) == Some(depth as int) && depth
                    < self.scopes.len() && find(self.scopes[depth as int]@, name@).is_some(),
                None => innermost(self@.scopes, name@).is_none(),
            },
    {
        proof {
            lemma_innermost(self@.scopes, name@);
        }
        let mut depth = self.scopes.len();
        assert(self@.scopes.take(depth as int) =~= self@.scopes);
        while depth > 0
            invariant
                depth <= self.scopes.len(),
                innermost(self@.scopes, name@) == innermost(self@.scopes.take(depth as int), name@),
            decreases depth,
        {
            depth -= 1;
            assert(self@.scopes.take(depth + 1).drop_last() =~= self@.scopes.take(depth as int));
            if self.scopes[depth].has(name) {
                return Some(depth);
            }
        }
        None
    }

    /// The local variable that a name stands for.
    pub fn lookup(&self, name: &str) -> (r: Option<Local>)
        ensures
            r == self@.lookup(name@),
            self@.wf() && r.is_some() ==> r.unwrap().index >= 1,
    {
        proof {
            lemma_lookup(self@, name@);
        }
        match self.innermost(name) {
            Some(depth) => {
                assert(self@.scopes[depth as int] == self.scopes[depth as int]@);
                match self.scopes[depth].get(name) {
                    Some(local) => Some(*local),
                    None => None,
                }
            },
            None => None,
        }
    }

    /// Replaces the local variable that a name stands for.
    fn replace(&mut self, name: &str, local: Local)
        ensures
            final(self)@ == old(self)@.replace(name@, local),
            old(self)@.wf() && local.index >= 1 ==> final(self)@.wf(),
    {
        match self.innermost(name) {
            Some(depth) => {
                proof {
                    lemma_find(self@.scopes[depth as int], name@);
                    assert(self@.scopes[depth as int] == self.scopes[depth as int]@);
                }
                let mut scope = self.scopes.remove(depth);
                let ghost before = scope@;
                scope.set(name, local);
                self.scopes.insert(depth, scope);
                proof {
                    assert(before == old(self)@.scopes[depth as int]);
                    assert(scope@ == with_local(before, find(before, name@).unwrap(), local));
                    assert(self@.scopes =~= old(self)@.scopes.update(depth as int, scope@));
                    lemma_total_update(old(self)@.scopes, depth as int, scope@);
                }
            },
            None => {},
        }
    }

    /// Marks the local variable of a name as initialized.
    pub fn mark_init_local(&mut self, name: &str)
        ensures
            final(self)@ == old(self)@.mark_init_local(name@),
            old(self)@.wf() ==> final(self)@.wf(),
    {
        match self.lookup(name) {
            Some(local) => {
                let mut local = local;
                local.mark_init();
                self.replace(name, local);
            },
            None => {},
        }
    }

    /// Marks the local variable of a name as captured by a closure.
    pub fn mark_captured_local(&mut self, name: &str)
        ensures
            final(self)@ == old(self)@.mark_captured_local(name@),
            old(self)@.wf() ==> final(self)@.wf(),
    {
        match self.lookup(name) {
            Some(local) => {
                let mut local = local;
                local.mark_captured();
                self.replace(name, local);
            },
            None => {},
        }
    }

    /// The local variable that a use of a name reads or writes, if the name
    /// stands for one. A variable whose initializer is not done cannot be
    /// used.
    pub fn resolve_local(&self, name: &str) -> (r: Result<Option<Local>, String>)
        ensures
            agrees(r, self@.resolve_local(name@)),
            self@.wf() && r is Ok && r->Ok_0.is_some() ==> r->Ok_0.unwrap().index >= 1,
    {
        match self.lookup(name) {
            Some(local) => {
                if !local.is_init {
                    return failure("Can't read local variable in its own initializer.");
                }
                Ok(Some(local))
            },
            None => Ok(None),
        }
    }
}

} // verus!
