//! The modules that a QuickJS runtime can load.

use vstd::prelude::*;
use vstd::utf8::encode_utf8;

verus! {

/// A loader of rquickjs for modules that are given as texts.
#[verifier::external_type_specification]
#[verifier::external_body]
pub struct ExBuiltinLoader(rquickjs::loader::BuiltinLoader);

/// A resolver of rquickjs for modules that are given by name.
#[verifier::external_type_specification]
#[verifier::external_body]
pub struct ExBuiltinResolver(rquickjs::loader::BuiltinResolver);

/// The source of every module that a loader holds, by name.
pub uninterp spec fn loader_modules(loader: rquickjs::loader::BuiltinLoader) -> Map<
    Seq<char>,
    Seq<u8>,
>;

/// The names of the modules that a resolver knows.
pub uninterp spec fn resolver_modules(resolver: rquickjs::loader::BuiltinResolver) -> Set<
    Seq<char>,
>;

/// No module.
pub open spec fn no_sources() -> Map<Seq<char>, Seq<u8>> {
    Map::empty()
}

/// No name.
pub open spec fn no_names() -> Set<Seq<char>> {
    Set::empty()
}

/// Calls `rquickjs::loader::BuiltinLoader::default`. Believed of it: it holds no module.
#[verifier::external_body]
fn empty_loader() -> (r: rquickjs::loader::BuiltinLoader)
    ensures
        loader_modules(r) == no_sources(),
{
    rquickjs::loader::BuiltinLoader::default()
}

/// Calls `rquickjs::loader::BuiltinResolver::default`. Believed of it: it knows no module.
#[verifier::external_body]
fn empty_resolver() -> (r: rquickjs::loader::BuiltinResolver)
    ensures
        resolver_modules(r) == no_names(),
{
    rquickjs::loader::BuiltinResolver::default()
}

/// Calls `rquickjs::loader::BuiltinLoader::add_module`. Believed of it: the loader then holds the
/// bytes of the code under that name, in place of what it held there, and nothing else changes.
#[verifier::external_body]
fn add_source(loader: &mut rquickjs::loader::BuiltinLoader, name: &str, code: &str)
    ensures
        loader_modules(*final(loader)) == loader_modules(*old(loader)).insert(
            name@,
            encode_utf8(code@),
        ),
{
    loader.add_module(name, code);
}

/// Calls `rquickjs::loader::BuiltinResolver::add_module`. Believed of it: the resolver then knows
/// that name besides those that it knew.
#[verifier::external_body]
fn add_name(resolver: &mut rquickjs::loader::BuiltinResolver, name: &str)
    ensures
        resolver_modules(*final(resolver)) == resolver_modules(*old(resolver)).insert(name@),
{
    resolver.add_module(name);
}

/// The modules that a QuickJS runtime can load.
pub struct LoaderAndResolver {
    pub loader: rquickjs::loader::BuiltinLoader,
    pub resolver: rquickjs::loader::BuiltinResolver,
}

impl LoaderAndResolver {
    /// The sources of the modules, by name.
    pub open spec fn modules(&self) -> Map<Seq<char>, Seq<u8>> {
        loader_modules(self.loader)
    }

    /// The names that can be imported.
    pub open spec fn names(&self) -> Set<Seq<char>> {
        resolver_modules(self.resolver)
    }

    /// The resolver knows the modules that the loader holds, and no others.
    pub open spec fn wf(&self) -> bool {
        self.names() == self.modules().dom()
    }

    /// No modules.
    pub fn new() -> (r: Self)
        ensures
            r.wf(),
            r.modules() == no_sources(),
            r.names() == no_names(),
    {
        let r = LoaderAndResolver { loader: empty_loader(), resolver: empty_resolver() };
        assert(r.names() =~= r.modules().dom());
        r
    }

    /// Adds a module, in place of one with that name.
    pub fn add_module(&mut self, name: &str, code: &str)
        ensures
            final(self).modules() == old(self).modules().insert(name@, encode_utf8(code@)),
            final(self).names() == old(self).names().insert(name@),
            old(self).wf() ==> final(self).wf(),
    {
        add_source(&mut self.loader, name, code);
        add_name(&mut self.resolver, name);
        proof {
            if old(self).wf() {
                assert(self.names() =~= self.modules().dom());
            }
        }
    }
}

} // verus!
