//! The table of chains that a parse fills.
//!
//! A chain is opened, given its links one by one, and closed. While a chain is
//! open it has a scope of its own for the chains that are declared inside it.
//! When a named chain is closed, its name goes into the scope of the chain
//! around it, and with it, behind the name and `::`, every name of its own
//! scope. A name is looked up in the innermost scope first.

use vstd::prelude::*;
use vstd::string::*;
use crate::error::{Error, ErrorSpec, ErrorSpecView, ErrorView, SonnyResult};
use crate::expr::{is_notes, ChainName, Expression, ExpressionView};
use crate::text::same_text;
use crate::value::{Number, NumberView};

verus! {

/// A chain: its name, if it has one, its links in order, and whether it is an
/// output.
#[derive(Debug, PartialEq, Eq)]
pub struct Chain {
    pub name: Option<String>,
    pub links: Vec<Expression>,
    pub play: bool,
}

/// What a [`Chain`] holds.
pub struct ChainView {
    pub name: Option<Seq<char>>,
    pub links: Seq<ExpressionView>,
    pub play: bool,
}

/// What an optional name holds.
pub open spec fn text_of(name: Option<String>) -> Option<Seq<char>> {
    match name {
        Some(n) => Some(n@),
        None => None,
    }
}

impl View for Chain {
    type V = ChainView;

    open spec fn view(&self) -> ChainView {
        ChainView {
            name: text_of(self.name),
            links: Seq::new(self.links.len() as nat, |i: int| self.links[i]@),
            play: self.play,
        }
    }
}

/// A name and the chain that it stands for.
#[derive(Debug, PartialEq, Eq)]
pub struct Binding {
    pub name: String,
    pub chain: ChainName,
}

/// The names that were declared inside one chain, oldest first.
#[derive(Debug, PartialEq, Eq)]
pub struct Scope {
    pub bindings: Vec<Binding>,
}

/// What a [`Scope`] holds.
pub type ScopeView = Seq<(Seq<char>, ChainName)>;

impl View for Scope {
    type V = ScopeView;

    open spec fn view(&self) -> ScopeView {
        Seq::new(self.bindings.len() as nat, |i: int| (self.bindings[i].name@, self.bindings[i].chain))
    }
}

/// What a name resolves to: the chain, and whether it is generic, that is,
/// not made of note sequences alone.
#[derive(Debug, Clone, Copy, PartialEq, Eq, Structural)]
pub struct ChainHandle {
    pub name: ChainName,
    pub generic: bool,
}

/// The chain that `name` stands for in one scope: the one declared last under
/// that name.
pub open spec fn lookup_in(scope: ScopeView, name: Seq<char>) -> Option<ChainName>
    decreases scope.len(),
{
    if scope.len() == 0 {
        None
    } else if scope.last().0 == name {
        Some(scope.last().1)
    } else {
        lookup_in(scope.drop_last(), name)
    }
}

/// The chain that `name` stands for: the one that the innermost scope with
/// such a name gives.
pub open spec fn lookup(scopes: Seq<ScopeView>, name: Seq<char>) -> Option<ChainName>
    decreases scopes.len(),
{
    if scopes.len() == 0 {
        None
    } else if lookup_in(scopes.last(), name) is Some {
        lookup_in(scopes.last(), name)
    } else {
        lookup(scopes.drop_last(), name)
    }
}

/// A chain is made of notes when it has links and each of them is a sequence
/// of notes. Every other chain is generic.
pub open spec fn is_generic(chain: ChainView) -> bool {
    !(chain.links.len() > 0 && forall|i: int|
        0 <= i < chain.links.len() ==> is_notes(#[trigger] chain.links[i]))
}

/// A name behind the name of the chain that holds it.
pub open spec fn qualified(label: Seq<char>, name: Seq<char>) -> Seq<char> {
    label + seq![':', ':'] + name
}

/// The names that a chain hands to the scope around it when it is closed: its
/// own, then each name of its own scope behind its own.
pub open spec fn exported(label: Seq<char>, chain: ChainName, inner: ScopeView) -> ScopeView {
    seq![(label, chain)] + Seq::new(
        inner.len(),
        |i: int| (qualified(label, inner[i].0), inner[i].1),
    )
}

/// What a [`Builder`] holds.
pub struct BuilderView {
    /// Beats per minute.
    pub tempo: NumberView,
    /// The time at which the output ends.
    pub end_time: NumberView,
    /// Every chain, in the order in which they were opened.
    pub chains: Seq<ChainView>,
    /// The chains that are open, outermost first.
    pub open: Seq<usize>,
    /// The scopes, outermost first.
    pub scopes: Seq<ScopeView>,
}

/// The chain that receives links: the innermost open one.
pub open spec fn current(b: BuilderView) -> Option<int> {
    if b.open.len() > 0 && b.open.last() < b.chains.len() {
        Some(b.open.last() as int)
    } else {
        None
    }
}

/// Whether the innermost scope already has the name.
pub open spec fn declared(b: BuilderView, name: Seq<char>) -> bool {
    b.scopes.len() > 0 && lookup_in(b.scopes.last(), name) is Some
}

/// Opening a chain: it takes the next place in the table, becomes the
/// innermost open chain and gets an empty scope. A name that the innermost
/// scope already has is refused.
pub open spec fn new_chain_spec(b: BuilderView, name: Option<Seq<char>>, line: nat) -> Result<
    (BuilderView, ChainName),
    ErrorView,
> {
    if name is Some && declared(b, name->0) {
        Err(ErrorView { kind: ErrorSpecView::ChainRedeclaration(name->0), line })
    } else {
        Ok(
            (
                BuilderView {
                    chains: b.chains.push(ChainView { name, links: Seq::empty(), play: false }),
                    open: b.open.push(b.chains.len() as usize),
                    scopes: b.scopes.push(Seq::empty()),
                    ..b
                },
                ChainName(b.chains.len() as usize),
            ),
        )
    }
}

/// Adding a link to the innermost open chain.
pub open spec fn new_expression_spec(b: BuilderView, e: ExpressionView) -> BuilderView {
    match current(b) {
        Some(i) => BuilderView {
            chains: b.chains.update(
                i,
                ChainView { links: b.chains[i].links.push(e), ..b.chains[i] },
            ),
            ..b
        },
        None => b,
    }
}

/// Marking the innermost open chain as an output.
pub open spec fn play_chain_spec(b: BuilderView) -> BuilderView {
    match current(b) {
        Some(i) => BuilderView {
            chains: b.chains.update(i, ChainView { play: true, ..b.chains[i] }),
            ..b
        },
        None => b,
    }
}

/// Closing the innermost open chain: its scope goes, and if the chain has a
/// name, the scope around it gains what the chain exports.
pub open spec fn finalize_chain_spec(b: BuilderView) -> BuilderView {
    if b.open.len() == 0 {
        b
    } else {
        let chain = b.open.last();
        let inner = if b.scopes.len() > 0 {
            b.scopes.last()
        } else {
            Seq::empty()
        };
        let outer = if b.scopes.len() > 0 {
            b.scopes.drop_last()
        } else {
            b.scopes
        };
        let scopes = if outer.len() > 0 && chain < b.chains.len() && b.chains[chain as int].name
            is Some {
            outer.update(
                outer.len() - 1,
                outer.last() + exported(b.chains[chain as int].name->0, ChainName(chain), inner),
            )
        } else {
            outer
        };
        BuilderView { open: b.open.drop_last(), scopes, ..b }
    }
}

/// Resolving a name: the chain that the scopes give for it and whether that
/// chain is generic; nothing where no scope has the name.
pub open spec fn find_chain_spec(b: BuilderView, name: Seq<char>) -> Option<ChainHandle> {
    match lookup(b.scopes, name) {
        Some(chain) => if chain.0 < b.chains.len() {
            Some(ChainHandle { name: chain, generic: is_generic(b.chains[chain.0 as int]) })
        } else {
            None
        },
        None => None,
    }
}

/// The state before anything was parsed: 120 beats per minute, no end time,
/// no chain, and one empty scope.
pub open spec fn initial() -> BuilderView {
    BuilderView {
        tempo: NumberView::Decimal(seq!['1', '2', '0']),
        end_time: NumberView::Zero,
        chains: Seq::empty(),
        open: Seq::empty(),
        scopes: seq![Seq::empty()],
    }
}

/// The table of chains, the scopes and the two settings that a parse fills.
#[derive(Debug)]
pub struct Builder {
    /// Beats per minute.
    pub tempo: Number,
    /// The time at which the output ends.
    pub end_time: Number,
    chains: Vec<Chain>,
    open: Vec<usize>,
    names_in_scope: Vec<Scope>,
}

impl View for Builder {
    type V = BuilderView;

    closed spec fn view(&self) -> BuilderView {
        BuilderView {
            tempo: self.tempo@,
            end_time: self.end_time@,
            chains: Seq::new(self.chains.len() as nat, |i: int| self.chains[i]@),
            open: self.open@,
            scopes: Seq::new(self.names_in_scope.len() as nat, |i: int| self.names_in_scope[i]@),
        }
    }
}

impl Scope {
    /// The chain that the scope gives for a name.
    pub fn lookup(&self, name: &str) -> (r: Option<ChainName>)
        ensures
            r == lookup_in(self@, name@),
    {
        let mut i = self.bindings.len();
        assert(self@.take(i as int) =~= self@);
        while i > 0
            invariant
                i <= self.bindings.len(),
                lookup_in(self@, name@) == lookup_in(self@.take(i as int), name@),
            decreases i,
        {
            i = i - 1;
            assert(self@.take(i + 1).drop_last() =~= self@.take(i as int));
            if same_text(self.bindings[i].name.as_str(), name) {
                return Some(self.bindings[i].chain);
            }
        }
        assert(self@.take(0).len() == 0);
        None
    }
}

impl Builder {
    /// A builder that holds nothing yet.
    pub fn new() -> (b: Builder)
        ensures
            b@ == initial(),
    {
        let mut tempo = String::new();
        crate::text::push_char(&mut tempo, '1');
        crate::text::push_char(&mut tempo, '2');
        crate::text::push_char(&mut tempo, '0');
        let mut names_in_scope: Vec<Scope> = Vec::new();
        names_in_scope.push(Scope { bindings: Vec::new() });
        let b = Builder {
            tempo: Number::Decimal(tempo),
            end_time: Number::Zero,
            chains: Vec::new(),
            open: Vec::new(),
            names_in_scope,
        };
        assert(b@.scopes =~= seq![Seq::<(Seq<char>, ChainName)>::empty()]) by {
            assert(b.names_in_scope[0]@ =~= Seq::<(Seq<char>, ChainName)>::empty());
        }
        assert(b@.chains =~= Seq::<ChainView>::empty());
        assert(b@.open =~= Seq::<usize>::empty());
        assert(b.tempo@ == NumberView::Decimal(seq!['1', '2', '0'])) by {
            assert(tempo@ =~= seq!['1', '2', '0']);
        }
        b
    }

    /// Sets the tempo, in beats per minute.
    pub fn set_tempo(&mut self, tempo: Number)
        ensures
            final(self)@ == (BuilderView { tempo: tempo@, ..old(self)@ }),
    {
        self.tempo = tempo;
    }

    /// Sets the time at which the output ends.
    pub fn set_end_time(&mut self, end_time: Number)
        ensures
            final(self)@ == (BuilderView { end_time: end_time@, ..old(self)@ }),
    {
        self.end_time = end_time;
    }

    /// The tempo, in beats per minute.
    pub fn tempo(&self) -> (t: Number)
        ensures
            t@ == self@.tempo,
    {
        self.tempo.clone()
    }

    /// Every chain, in the order in which they were opened.
    pub fn chains(&self) -> (chains: &Vec<Chain>)
        ensures
            chains.len() == self@.chains.len(),
            forall|i: int| 0 <= i < chains.len() ==> chains[i]@ == self@.chains[i],
    {
        &self.chains
    }

    /// The number of scopes.
    pub fn scope_depth(&self) -> (n: usize)
        ensures
            n == self@.scopes.len(),
    {
        self.names_in_scope.len()
    }

    /// Opens a chain and returns its resolved name. A name that the innermost
    /// scope already has is refused, and nothing changes.
    pub fn new_chain(&mut self, name: Option<String>, line: usize) -> (r: SonnyResult<ChainName>)
        ensures
            match new_chain_spec(old(self)@, text_of(name), line as nat) {
                Ok((b, chain)) => r == Ok::<ChainName, Error>(chain) && final(self)@ == b,
                Err(e) => r is Err && r->Err_0@ == e && final(self)@ == old(self)@,
            },
    {
        let n = self.names_in_scope.len();
        let taken = match &name {
            Some(text) => n > 0 && self.names_in_scope[n - 1].lookup(text.as_str()).is_some(),
            None => false,
        };
        if taken {
            match name {
                Some(text) => {
                    return Err(Error::new(ErrorSpec::ChainRedeclaration(text)).on_line(line));
                },
                None => {},
            }
        }
        let chain = ChainName(self.chains.len());
        self.open.push(self.chains.len());
        self.chains.push(Chain { name, links: Vec::new(), play: false });
        self.names_in_scope.push(Scope { bindings: Vec::new() });
        proof {
            let b = new_chain_spec(old(self)@, text_of(name), line as nat)->Ok_0.0;
            assert(self.chains[self.chains.len() - 1]@.links =~= Seq::<ExpressionView>::empty());
            assert(self.names_in_scope[n as int]@ =~= Seq::<(Seq<char>, ChainName)>::empty());
            assert(self@.chains =~= b.chains);
            assert(self@.scopes =~= b.scopes);
            assert(self@.open =~= b.open);
        }
        Ok(chain)
    }

    /// Adds a link to the innermost open chain. Without an open chain nothing
    /// changes.
    pub fn new_expression(&mut self, expression: Expression)
        ensures
            final(self)@ == new_expression_spec(old(self)@, expression@),
    {
        let n = self.open.len();
        if n > 0 && self.open[n - 1] < self.chains.len() {
            let i = self.open[n - 1];
            self.chains[i].links.push(expression);
            proof {
                let b = new_expression_spec(old(self)@, expression@);
                assert(self.chains[i as int]@.links =~= old(self).chains[i as int]@.links.push(
                    expression@,
                ));
                assert(self@.chains =~= b.chains);
                assert(self@.scopes =~= b.scopes);
            }
        }
    }

    /// Marks the innermost open chain as an output. Without an open chain
    /// nothing changes.
    pub fn play_chain(&mut self)
        ensures
            final(self)@ == play_chain_spec(old(self)@),
    {
        let n = self.open.len();
        if n > 0 && self.open[n - 1] < self.chains.len() {
            let i = self.open[n - 1];
            self.chains[i].play = true;
            proof {
                let b = play_chain_spec(old(self)@);
                assert(self.chains[i as int]@.links =~= old(self).chains[i as int]@.links);
                assert(self@.chains =~= b.chains);
                assert(self@.scopes =~= b.scopes);
            }
        }
    }

    /// Closes the innermost open chain and hands its names to the scope
    /// around it. Without an open chain nothing changes.
    pub fn finalize_chain(&mut self)
        ensures
            final(self)@ == finalize_chain_spec(old(self)@),
    {
        if self.open.len() == 0 {
            return ;
        }
        let chain = self.open.pop().unwrap();
        let inner = if self.names_in_scope.len() > 0 {
            self.names_in_scope.pop().unwrap()
        } else {
            Scope { bindings: Vec::new() }
        };
        let ghost goal = finalize_chain_spec(old(self)@);
        let ghost outer = self@.scopes;
        proof {
            assert(self@.chains =~= old(self)@.chains);
            assert(self@.open =~= old(self)@.open.drop_last());
            if old(self)@.scopes.len() > 0 {
                assert(outer =~= old(self)@.scopes.drop_last());
                assert(inner@ == old(self)@.scopes.last());
            } else {
                assert(outer =~= old(self)@.scopes);
                assert(inner@ =~= Seq::<(Seq<char>, ChainName)>::empty());
            }
        }
        let n = self.names_in_scope.len();
        if n == 0 || chain >= self.chains.len() {
            return ;
        }
        let label = match &self.chains[chain].name {
            Some(text) => text.clone(),
            None => {
                return ;
            },
        };
        let ghost names = exported(label@, ChainName(chain), inner@);
        self.names_in_scope[n - 1].bindings.push(
            Binding { name: label.clone(), chain: ChainName(chain) },
        );
        assert(self.names_in_scope[n - 1]@ =~= outer.last() + names.take(1));
        let mut i: usize = 0;
        while i < inner.bindings.len()
            invariant
                i <= inner.bindings.len(),
                n == self.names_in_scope.len() == outer.len(),
                n > 0,
                names == exported(label@, ChainName(chain), inner@),
                self.tempo == old(self).tempo,
                self.end_time == old(self).end_time,
                self@.chains == old(self)@.chains,
                self@.open == old(self)@.open.drop_last(),
                forall|j: int| 0 <= j < n - 1 ==> self.names_in_scope[j]@ == outer[j],
                self.names_in_scope[n - 1]@ == outer.last() + names.take(i + 1),
            decreases inner.bindings.len() - i,
        {
            let mut name = label.clone();
            name.append("::");
            name.append(inner.bindings[i].name.as_str());
            proof {
                reveal_strlit("::");
                assert("::"@ =~= seq![':', ':']);
                assert(name@ =~= qualified(label@, inner@[i as int].0));
            }
            let ghost before = self.names_in_scope[n - 1]@;
            let ghost chains_before = self@.chains;
            self.names_in_scope[n - 1].bindings.push(
                Binding { name, chain: inner.bindings[i].chain },
            );
            proof {
                assert(self.names_in_scope[n - 1]@ =~= before.push(names[i + 1]));
                assert(names.take(i + 2) =~= names.take(i + 1).push(names[i + 1]));
                assert(self.names_in_scope[n - 1]@ =~= outer.last() + names.take(i + 2));
                assert(self@.chains =~= chains_before);
            }
            i = i + 1;
        }
        proof {
            assert(names.take(i + 1) =~= names);
            assert(self@.scopes =~= goal.scopes);
        }
    }

    /// Resolves a name to the chain that it stands for, innermost scope
    /// first.
    pub fn find_chain(&self, name: &str) -> (r: Option<ChainHandle>)
        ensures
            r == find_chain_spec(self@, name@),
    {
        let mut i = self.names_in_scope.len();
        assert(self@.scopes.take(i as int) =~= self@.scopes);
        while i > 0
            invariant
                i <= self.names_in_scope.len(),
                lookup(self@.scopes, name@) == lookup(self@.scopes.take(i as int), name@),
            decreases i,
        {
            i = i - 1;
            assert(self@.scopes.take(i + 1).drop_last() =~= self@.scopes.take(i as int));
            assert(self@.scopes.take(i + 1).last() == self.names_in_scope[i as int]@);
            match self.names_in_scope[i].lookup(name) {
                Some(chain) => {
                    if chain.0 < self.chains.len() {
                        return Some(
                            ChainHandle { name: chain, generic: self.chains[chain.0].is_generic() },
                        );
                    }
                    return None;
                },
                None => {},
            }
        }
        assert(self@.scopes.take(0).len() == 0);
        None
    }

    /// Takes the innermost scope away and returns it; `None` where there is
    /// no scope.
    pub fn pop_scope(&mut self) -> (scope: Option<Scope>)
        ensures
            old(self)@.scopes.len() == 0 ==> scope is None && final(self)@ == old(self)@,
            old(self)@.scopes.len() > 0 ==> scope is Some && scope->0@ == old(self)@.scopes.last()
                && final(self)@ == (BuilderView {
                scopes: old(self)@.scopes.drop_last(),
                ..old(self)@
            }),
    {
        let scope = self.names_in_scope.pop();
        proof {
            assert(self@.chains =~= old(self)@.chains);
            if old(self)@.scopes.len() > 0 {
                assert(self@.scopes =~= old(self)@.scopes.drop_last());
            } else {
                assert(self@.scopes =~= old(self)@.scopes);
            }
        }
        scope
    }

    /// Makes `scope` the innermost scope.
    pub fn push_scope(&mut self, scope: Scope)
        ensures
            final(self)@ == (BuilderView { scopes: old(self)@.scopes.push(scope@), ..old(self)@ }),
    {
        self.names_in_scope.push(scope);
        proof {
            assert(self@.chains =~= old(self)@.chains);
            assert(self@.scopes =~= old(self)@.scopes.push(scope@));
        }
    }
}

impl Chain {
    /// Whether the chain is generic, that is, not made of note sequences
    /// alone.
    pub fn is_generic(&self) -> (r: bool)
        ensures
            r == is_generic(self@),
    {
        if self.links.len() == 0 {
            return true;
        }
        let mut i: usize = 0;
        while i < self.links.len()
            invariant
                i <= self.links.len(),
                forall|j: int| 0 <= j < i ==> is_notes(#[trigger] self@.links[j]),
            decreases self.links.len() - i,
        {
            if !self.links[i].is_notes() {
                assert(!is_notes(self@.links[i as int]));
                return true;
            }
            i = i + 1;
        }
        false
    }
}

/// A name behind a label is longer than the label, and two names behind the
/// same label are the same only if they are the same names.
pub proof fn lemma_qualified(label: Seq<char>, a: Seq<char>, b: Seq<char>)
    ensures
        qualified(label, a) != label,
        qualified(label, a) == qualified(label, b) ==> a == b,
{
    let n = label.len() + 2;
    assert(qualified(label, a).skip(n as int) =~= a);
    assert(qualified(label, b).skip(n as int) =~= b);
}

/// Looking a qualified name up in a scope that has taken what a chain
/// exports: the chain's own scope decides where it has the name, else what
/// the scope held before.
pub proof fn lemma_lookup_exported(
    outer: ScopeView,
    label: Seq<char>,
    chain: ChainName,
    inner: ScopeView,
    name: Seq<char>,
)
    ensures
        lookup_in(outer + exported(label, chain, inner), qualified(label, name)) == if lookup_in(
            inner,
            name,
        ) is Some {
            lookup_in(inner, name)
        } else {
            lookup_in(outer, qualified(label, name))
        },
    decreases inner.len(),
{
    let all = outer + exported(label, chain, inner);
    if inner.len() == 0 {
        lemma_qualified(label, name, name);
        assert(all.last() == (label, chain));
        assert(all.drop_last() =~= outer);
    } else {
        lemma_qualified(label, inner.last().0, name);
        assert(all.last() == (qualified(label, inner.last().0), inner.last().1));
        assert(all.drop_last() =~= outer + exported(label, chain, inner.drop_last()));
        lemma_lookup_exported(outer, label, chain, inner.drop_last(), name);
    }
}

/// When a named chain is closed inside another scope, every name of its own
/// scope can be referred to from outside behind the chain's name and `::`,
/// and stands for the chain that it stood for inside. The chain's name itself
/// stands for the chain.
pub proof fn law_closing_exports(b: BuilderView, name: Seq<char>)
    requires
        b.open.len() > 0,
        b.scopes.len() >= 2,
        b.open.last() < b.chains.len(),
        b.chains[b.open.last() as int].name is Some,
    ensures
        ({
            let label = b.chains[b.open.last() as int].name->0;
            let closed = finalize_chain_spec(b);
            &&& closed.scopes.len() == b.scopes.len() - 1
            &&& lookup_in(b.scopes.last(), name) is Some ==> lookup(
                closed.scopes,
                qualified(label, name),
            ) == lookup_in(b.scopes.last(), name)
            &&& lookup(closed.scopes, label) == Some(ChainName(b.open.last()))
        }),
{
    let chain = b.open.last();
    let label = b.chains[chain as int].name->0;
    let inner = b.scopes.last();
    let outer = b.scopes.drop_last();
    lemma_lookup_exported(outer.last(), label, ChainName(chain), inner, name);
    lemma_lookup_label(outer.last(), label, ChainName(chain), inner);
}

/// In a scope that has taken what a chain exports, the chain's name stands
/// for the chain.
pub proof fn lemma_lookup_label(
    outer: ScopeView,
    label: Seq<char>,
    chain: ChainName,
    inner: ScopeView,
)
    ensures
        lookup_in(outer + exported(label, chain, inner), label) == Some(chain),
    decreases inner.len(),
{
    let all = outer + exported(label, chain, inner);
    if inner.len() == 0 {
        assert(all.last() == (label, chain));
    } else {
        lemma_qualified(label, inner.last().0, inner.last().0);
        assert(all.last() == (qualified(label, inner.last().0), inner.last().1));
        assert(all.drop_last() =~= outer + exported(label, chain, inner.drop_last()));
        lemma_lookup_label(outer, label, chain, inner.drop_last());
    }
}

/// A name that only the innermost scope has is not found once that scope is
/// set aside.
pub proof fn law_scope_set_aside(b: BuilderView, name: Seq<char>)
    requires
        b.scopes.len() > 0,
        lookup(b.scopes.drop_last(), name) is None,
    ensures
        find_chain_spec(BuilderView { scopes: b.scopes.drop_last(), ..b }, name) is None,
{
}

} // verus!
