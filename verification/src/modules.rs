//! Loading a program from its modules: each `use` is replaced, in place, by
//! the items of the module it names, and every module is loaded at most once,
//! so that modules that use each other do not loop.
//!
//! The loader decides; its caller opens and reads files. The caller starts a
//! module with `begin` (with the module's canonical path as bytes), and when
//! that says the module is new, reads and parses it and hands its items to
//! `push_module`. Then it asks `next` what to do, and opens the module that
//! `next` names, until `next` says the program is complete.
use vstd::prelude::*;
use crate::ast::{TopLevel, STopLevel};

verus! {

/// What the caller of the loader does next.
#[derive(Debug, Clone, PartialEq)]
pub enum LoadAction {
    /// Open the module at `path`, relative to the directory of the module
    /// numbered `module` (in the order the modules were pushed).
    Open { module: usize, path: String },
    /// Every module is loaded: the program is complete.
    Done,
}

pub enum SLoadAction {
    Open { module: nat, path: Seq<char> },
    Done,
}

impl LoadAction {
    pub open spec fn view(&self) -> SLoadAction {
        match self {
            LoadAction::Open { module, path } => SLoadAction::Open { module: *module as nat, path: path@ },
            LoadAction::Done => SLoadAction::Done,
        }
    }
}

/// The items of a module that are not taken yet.
struct Frame {
    module: usize,
    /// The remaining items, the next one last.
    items: Vec<TopLevel>,
}

/// A module in progress: its number and its remaining items, next one first.
pub struct SFrame {
    pub module: nat,
    pub items: Seq<STopLevel>,
}

/// The state of loading a program.
pub struct ModuleLoader {
    loaded: Vec<Vec<u8>>,
    frames: Vec<Frame>,
    modules: usize,
    program: Vec<TopLevel>,
}

pub open spec fn frame_items(items: Seq<TopLevel>) -> Seq<STopLevel> {
    items.reverse().map_values(|t: TopLevel| t.view())
}

impl Frame {
    spec fn view(&self) -> SFrame {
        SFrame { module: self.module as nat, items: frame_items(self.items@) }
    }
}

pub open spec fn total_items(frames: Seq<SFrame>) -> nat
    decreases frames.len(),
{
    if frames.len() == 0 {
        0
    } else {
        total_items(frames.drop_last()) + frames.last().items.len()
    }
}

/// What `next` does: items of the innermost module move to the program in
/// order; a finished module gives way to the one that used it; a `use` stops
/// and asks for its module; with no module left the program is complete.
pub open spec fn spec_next(frames: Seq<SFrame>, program: Seq<STopLevel>) -> (Seq<SFrame>, Seq<STopLevel>, SLoadAction)
    decreases total_items(frames), frames.len(),
{
    if frames.len() == 0 {
        (frames, program, SLoadAction::Done)
    } else {
        let top = frames.last();
        if top.items.len() == 0 {
            spec_next(frames.drop_last(), program)
        } else {
            let item = top.items[0];
            let rest = frames.drop_last().push(SFrame { module: top.module, items: top.items.drop_first() });
            proof {
                lemma_total_pop(frames);
            }
            match item {
                STopLevel::UseDecl { path } => (rest, program, SLoadAction::Open { module: top.module, path }),
                _ => spec_next(rest, program.push(item)),
            }
        }
    }
}

pub proof fn lemma_total_pop(frames: Seq<SFrame>)
    requires
        frames.len() > 0,
        frames.last().items.len() > 0,
    ensures
        total_items(frames.drop_last().push(
            SFrame { module: frames.last().module, items: frames.last().items.drop_first() },
        )) < total_items(frames),
{
    let f2 = frames.drop_last().push(SFrame { module: frames.last().module, items: frames.last().items.drop_first() });
    assert(f2.drop_last() =~= frames.drop_last());
}

impl ModuleLoader {
    /// The canonical paths of the modules begun so far.
    pub closed spec fn loaded(&self) -> Set<Seq<u8>> {
        self.loaded@.map_values(|k: Vec<u8>| k@).to_set()
    }

    /// The modules in progress, innermost last.
    pub closed spec fn frames(&self) -> Seq<SFrame> {
        self.frames@.map_values(|f: Frame| f.view())
    }

    /// The items taken so far.
    pub closed spec fn program(&self) -> Seq<STopLevel> {
        self.program@.map_values(|t: TopLevel| t.view())
    }

    /// How many modules were pushed.
    pub closed spec fn modules(&self) -> nat {
        self.modules as nat
    }

    /// A loader with nothing loaded.
    pub fn new() -> (r: Self)
        ensures
            r.loaded() == Set::<Seq<u8>>::empty(),
            r.frames() == Seq::<SFrame>::empty(),
            r.program() == Seq::<STopLevel>::empty(),
            r.modules() == 0,
    {
        let r = ModuleLoader { loaded: Vec::new(), frames: Vec::new(), modules: 0, program: Vec::new() };
        assert(r.loaded() =~= Set::<Seq<u8>>::empty());
        assert(r.frames() =~= Seq::<SFrame>::empty());
        assert(r.program() =~= Seq::<STopLevel>::empty());
        r
    }

    /// Starts the module at the canonical path `key`: `false` when that module
    /// was begun before, and it is then skipped; `true` when it is new, and it
    /// is then recorded as loaded.
    pub fn begin(&mut self, key: Vec<u8>) -> (r: bool)
        ensures
            r == !old(self).loaded().contains(key@),
            final(self).loaded() == old(self).loaded().insert(key@),
            final(self).frames() == old(self).frames(),
            final(self).program() == old(self).program(),
            final(self).modules() == old(self).modules(),
    {
        let ghost keys = self.loaded@.map_values(|k: Vec<u8>| k@);
        let mut i: usize = 0;
        while i < self.loaded.len()
            invariant
                i <= self.loaded@.len(),
                keys == self.loaded@.map_values(|k: Vec<u8>| k@),
                forall|j: int| 0 <= j < i ==> self.loaded@[j]@ != key@,
            decreases self.loaded@.len() - i,
        {
            if bytes_equal(&self.loaded[i], &key) {
                proof {
                    assert(keys[i as int] == key@);
                    assert(keys.to_set().contains(key@));
                    assert(keys.to_set().insert(key@) =~= keys.to_set());
                }
                return false;
            }
            i = i + 1;
        }
        proof {
            assert(!keys.to_set().contains(key@)) by {
                if keys.to_set().contains(key@) {
                    let j = choose|j: int| 0 <= j < keys.len() && keys[j] == key@;
                    assert(self.loaded@[j]@ == key@);
                }
            }
        }
        let ghost k = key@;
        self.loaded.push(key);
        proof {
            let keys2 = self.loaded@.map_values(|x: Vec<u8>| x@);
            assert(keys2 =~= keys.push(k));
            assert forall|a: Seq<u8>| keys2.contains(a) <==> (keys.contains(a) || a == k) by {
                if keys2.contains(a) {
                    let j = choose|j: int| 0 <= j < keys2.len() && keys2[j] == a;
                    if j < keys.len() {
                        assert(keys[j] == a);
                    }
                }
                if keys.contains(a) {
                    let j = choose|j: int| 0 <= j < keys.len() && keys[j] == a;
                    assert(keys2[j] == a);
                }
                if a == k {
                    assert(keys2[keys.len() as int] == a);
                }
            }
            assert(keys2.to_set() =~= keys.to_set().insert(k));
        }
        true
    }

    /// Hands over the items of the module just begun; it becomes the innermost
    /// module in progress, numbered by the count of modules pushed before it.
    pub fn push_module(&mut self, items: Vec<TopLevel>) -> (r: usize)
        requires
            old(self).modules() < usize::MAX,
        ensures
            r == old(self).modules(),
            final(self).modules() == old(self).modules() + 1,
            final(self).frames() == old(self).frames().push(
                SFrame { module: r as nat, items: items@.map_values(|t: TopLevel| t.view()) },
            ),
            final(self).loaded() == old(self).loaded(),
            final(self).program() == old(self).program(),
    {
        let ghost v = items@.map_values(|t: TopLevel| t.view());
        let mut rev: Vec<TopLevel> = Vec::new();
        let mut items = items;
        let ghost orig = items@;
        while items.len() > 0
            invariant
                orig.len() == items@.len() + rev@.len(),
                forall|j: int| 0 <= j < items@.len() ==> items@[j] == orig[j],
                forall|j: int| 0 <= j < rev@.len() ==> rev@[j] == orig[orig.len() - 1 - j],
            decreases items@.len(),
        {
            let t = items.pop().unwrap();
            rev.push(t);
        }
        let m = self.modules;
        let ghost old_frames = self.frames();
        self.frames.push(Frame { module: m, items: rev });
        self.modules = m + 1;
        proof {
            assert(frame_items(rev@) =~= v);
            assert(self.frames() =~= old_frames.push(SFrame { module: m as nat, items: v }));
        }
        m
    }

    /// Moves items of the innermost modules to the program until a `use` (whose
    /// module the caller opens next) or the end of every module.
    pub fn next(&mut self) -> (r: LoadAction)
        ensures
            (final(self).frames(), final(self).program(), r.view()) == spec_next(old(self).frames(), old(self).program()),
            final(self).loaded() == old(self).loaded(),
            final(self).modules() == old(self).modules(),
    {
        loop
            invariant
                spec_next(self.frames(), self.program()) == spec_next(old(self).frames(), old(self).program()),
                self.loaded() == old(self).loaded(),
                self.modules() == old(self).modules(),
            decreases total_items(self.frames()), self.frames().len(),
        {
            let n = self.frames.len();
            if n == 0 {
                return LoadAction::Done;
            }
            let ghost fr = self.frames();
            let ghost pr = self.program();
            let mut frame = self.frames.pop().unwrap();
            proof {
                assert(fr.drop_last() =~= self.frames());
                assert(fr.last() == frame.view());
            }
            match frame.items.pop() {
                None => {
                    proof {
                        assert(frame_items(frame.items@).len() == 0);
                    }
                },
                Some(item) => {
                    let module = frame.module;
                    let ghost rest_items = frame_items(frame.items@);
                    proof {
                        assert(frame_items(frame.items@.push(item)) =~= seq![item.view()] + rest_items);
                        assert(fr.last().items[0] == item.view());
                        assert(fr.last().items.drop_first() =~= rest_items);
                        lemma_total_pop(fr);
                    }
                    self.frames.push(frame);
                    proof {
                        assert(self.frames() =~= fr.drop_last().push(SFrame { module: module as nat, items: rest_items }));
                    }
                    match item {
                        TopLevel::UseDecl { path } => {
                            return LoadAction::Open { module, path };
                        },
                        _ => {
                            let ghost iv = item.view();
                            self.program.push(item);
                            proof {
                                assert(self.program() =~= pr.push(iv));
                            }
                        },
                    }
                },
            }
        }
    }

    /// The program assembled so far.
    pub fn into_program(self) -> (r: Vec<TopLevel>)
        ensures
            r@.map_values(|t: TopLevel| t.view()) == self.program(),
    {
        self.program
    }
}

fn bytes_equal(a: &Vec<u8>, b: &Vec<u8>) -> (r: bool)
    ensures
        r == (a@ == b@),
{
    if a.len() != b.len() {
        return false;
    }
    let mut i: usize = 0;
    while i < a.len()
        invariant
            a@.len() == b@.len(),
            i <= a@.len(),
            forall|j: int| 0 <= j < i ==> a@[j] == b@[j],
        decreases a@.len() - i,
    {
        if a[i] != b[i] {
            return false;
        }
        i = i + 1;
    }
    assert(a@ =~= b@);
    true
}

/// A module is begun at most once: beginning a module that was begun before
/// says to skip it and changes nothing.
pub proof fn law_module_begun_once(loaded: Set<Seq<u8>>, key: Seq<u8>)
    ensures
        loaded.insert(key).contains(key),
        loaded.insert(key).insert(key) == loaded.insert(key),
{
    assert(loaded.insert(key).insert(key) =~= loaded.insert(key));
}


/// Nothing is lost or invented while loading: a step keeps what the program
/// had as its start, and every item it does not take (one `use`, when it asks
/// for a module) is still pending in the modules in progress.
pub proof fn law_next_keeps_items(frames: Seq<SFrame>, program: Seq<STopLevel>)
    ensures
        ({
            let (f2, p2, a) = spec_next(frames, program);
            &&& p2.len() >= program.len()
            &&& p2.subrange(0, program.len() as int) == program
            &&& p2.len() + total_items(f2) + (if a is Open { 1int } else { 0int })
                == program.len() + total_items(frames)
        }),
    decreases total_items(frames), frames.len(),
{
    if frames.len() == 0 {
        assert(program.subrange(0, program.len() as int) =~= program);
    } else {
        let top = frames.last();
        if top.items.len() == 0 {
            law_next_keeps_items(frames.drop_last(), program);
        } else {
            let item = top.items[0];
            let rest = frames.drop_last().push(SFrame { module: top.module, items: top.items.drop_first() });
            lemma_total_pop(frames);
            assert(rest.drop_last() =~= frames.drop_last());
            match item {
                STopLevel::UseDecl { path } => {
                    assert(program.subrange(0, program.len() as int) =~= program);
                },
                _ => {
                    law_next_keeps_items(rest, program.push(item));
                    let p2 = spec_next(rest, program.push(item)).1;
                    assert(p2.subrange(0, program.len() as int) =~= p2.subrange(0, program.len() + 1int).subrange(0, program.len() as int));
                    assert(program.push(item).subrange(0, program.len() as int) =~= program);
                },
            }
        }
    }
}

/// Loading the items `items` of the module at the canonical path `key`
/// recursively, with at most `fuel` steps: an item other than a
/// `use` joins the program; a `use` of a module loaded before is skipped; a
/// `use` of a new module loads that module's items (given by `files`) in its
/// place, the module's path being `resolve(key, path)`. `None` when the fuel
/// runs out.
pub open spec fn load_items(
    fuel: nat,
    files: spec_fn(Seq<u8>) -> Seq<STopLevel>,
    resolve: spec_fn(Seq<u8>, Seq<char>) -> Seq<u8>,
    key: Seq<u8>,
    items: Seq<STopLevel>,
    program: Seq<STopLevel>,
    loaded: Set<Seq<u8>>,
) -> Option<(Seq<STopLevel>, Set<Seq<u8>>)>
    decreases fuel,
{
    if fuel == 0 {
        None
    } else if items.len() == 0 {
        Some((program, loaded))
    } else {
        match items[0] {
            STopLevel::UseDecl { path } => {
                let k = resolve(key, path);
                if loaded.contains(k) {
                    load_items((fuel - 1) as nat, files, resolve, key, items.drop_first(), program, loaded)
                } else {
                    match load_items((fuel - 1) as nat, files, resolve, k, files(k), program, loaded.insert(k)) {
                        Some((p1, l1)) => load_items((fuel - 1) as nat, files, resolve, key, items.drop_first(), p1, l1),
                        None => None,
                    }
                }
            },
            _ => load_items((fuel - 1) as nat, files, resolve, key, items.drop_first(), program.push(items[0]), loaded),
        }
    }
}

/// What a caller of the loader does, in at most `fuel` rounds: it asks `next`;
/// on `Open` it begins the module at `resolve(keys[module], path)` and, when
/// that module is new, pushes its items (numbered after the modules so far,
/// whose paths `keys` lists); on `Done` the program is complete.
pub open spec fn drive(
    fuel: nat,
    files: spec_fn(Seq<u8>) -> Seq<STopLevel>,
    resolve: spec_fn(Seq<u8>, Seq<char>) -> Seq<u8>,
    frames: Seq<SFrame>,
    keys: Seq<Seq<u8>>,
    program: Seq<STopLevel>,
    loaded: Set<Seq<u8>>,
) -> Option<(Seq<STopLevel>, Set<Seq<u8>>)>
    decreases fuel,
{
    if fuel == 0 {
        None
    } else {
        let (f2, p2, a) = spec_next(frames, program);
        match a {
            SLoadAction::Done => Some((p2, loaded)),
            SLoadAction::Open { module, path } => {
                let k = resolve(keys[module as int], path);
                if loaded.contains(k) {
                    drive((fuel - 1) as nat, files, resolve, f2, keys, p2, loaded)
                } else {
                    drive(
                        (fuel - 1) as nat,
                        files,
                        resolve,
                        f2.push(SFrame { module: keys.len(), items: files(k) }),
                        keys.push(k),
                        p2,
                        loaded.insert(k),
                    )
                }
            },
        }
    }
}

proof fn lemma_load_fuel(
    f: nat,
    g: nat,
    files: spec_fn(Seq<u8>) -> Seq<STopLevel>,
    resolve: spec_fn(Seq<u8>, Seq<char>) -> Seq<u8>,
    key: Seq<u8>,
    items: Seq<STopLevel>,
    program: Seq<STopLevel>,
    loaded: Set<Seq<u8>>,
)
    requires
        f <= g,
        load_items(f, files, resolve, key, items, program, loaded) is Some,
    ensures
        load_items(g, files, resolve, key, items, program, loaded) == load_items(f, files, resolve, key, items, program, loaded),
    decreases f,
{
    if items.len() > 0 {
        match items[0] {
            STopLevel::UseDecl { path } => {
                let k = resolve(key, path);
                if loaded.contains(k) {
                    lemma_load_fuel((f - 1) as nat, (g - 1) as nat, files, resolve, key, items.drop_first(), program, loaded);
                } else {
                    lemma_load_fuel((f - 1) as nat, (g - 1) as nat, files, resolve, k, files(k), program, loaded.insert(k));
                    let (p1, l1) = load_items((f - 1) as nat, files, resolve, k, files(k), program, loaded.insert(k))->0;
                    lemma_load_fuel((f - 1) as nat, (g - 1) as nat, files, resolve, key, items.drop_first(), p1, l1);
                }
            },
            _ => {
                lemma_load_fuel((f - 1) as nat, (g - 1) as nat, files, resolve, key, items.drop_first(), program.push(items[0]), loaded);
            },
        }
    }
}

/// `keys2` keeps the first paths of `keys`.
pub open spec fn extends(keys2: Seq<Seq<u8>>, keys: Seq<Seq<u8>>) -> bool {
    keys.len() <= keys2.len() && forall|j: int| 0 <= j < keys.len() ==> keys2[j] == keys[j]
}

/// The module on top of the loader is loaded to its end, as the recursion
/// loads it, before the modules below it resume.
proof fn lemma_drive_top(
    n: nat,
    files: spec_fn(Seq<u8>) -> Seq<STopLevel>,
    resolve: spec_fn(Seq<u8>, Seq<char>) -> Seq<u8>,
    base: Seq<SFrame>,
    m: nat,
    items: Seq<STopLevel>,
    keys: Seq<Seq<u8>>,
    program: Seq<STopLevel>,
    loaded: Set<Seq<u8>>,
    r: (Seq<STopLevel>, Set<Seq<u8>>),
)
    requires
        m < keys.len(),
        drive(n, files, resolve, base.push(SFrame { module: m, items }), keys, program, loaded) == Some(r),
    ensures
        exists|f: nat, n1: nat, keys1: Seq<Seq<u8>>, p1: Seq<STopLevel>, l1: Set<Seq<u8>>|
            #![trigger load_items(f, files, resolve, keys[m as int], items, program, loaded), drive(n1, files, resolve, base, keys1, p1, l1)]
            {
                &&& load_items(f, files, resolve, keys[m as int], items, program, loaded) == Some((p1, l1))
                &&& drive(n1, files, resolve, base, keys1, p1, l1) == Some(r)
                &&& n1 <= n
                &&& extends(keys1, keys)
            },
    decreases n, items.len(),
{
    let key = keys[m as int];
    let frames = base.push(SFrame { module: m, items });
    assert(frames.drop_last() =~= base);
    if items.len() == 0 {
        assert(spec_next(frames, program) == spec_next(base, program));
        assert(drive(n, files, resolve, base, keys, program, loaded) == Some(r));
        assert(load_items(1, files, resolve, key, items, program, loaded) == Some((program, loaded)));
        assert(extends(keys, keys));
    } else {
        let rest = base.push(SFrame { module: m, items: items.drop_first() });
        assert(rest.drop_last() =~= base);
        match items[0] {
            STopLevel::UseDecl { path } => {
                assert(spec_next(frames, program) == (rest, program, SLoadAction::Open { module: m, path }));
                let k = resolve(key, path);
                if loaded.contains(k) {
                    lemma_drive_top((n - 1) as nat, files, resolve, base, m, items.drop_first(), keys, program, loaded, r);
                    let (f, n1, keys1, p1, l1) = choose|f: nat, n1: nat, keys1: Seq<Seq<u8>>, p1: Seq<STopLevel>, l1: Set<Seq<u8>>|
                    #![trigger load_items(f, files, resolve, key, items.drop_first(), program, loaded), drive(n1, files, resolve, base, keys1, p1, l1)]
                    {
                        &&& load_items(f, files, resolve, key, items.drop_first(), program, loaded) == Some((p1, l1))
                        &&& drive(n1, files, resolve, base, keys1, p1, l1) == Some(r)
                        &&& n1 <= n - 1
                        &&& extends(keys1, keys)
                    };
                    assert(load_items(f + 1, files, resolve, key, items, program, loaded) == Some((p1, l1)));
                } else {
                    let keys_k = keys.push(k);
                    let km = keys.len();
                    assert(keys_k[km as int] == k);
                    lemma_drive_top((n - 1) as nat, files, resolve, rest, km, files(k), keys_k, program, loaded.insert(k), r);
                    let (fa, na, keys_a, pa, la) = choose|f: nat, n1: nat, keys1: Seq<Seq<u8>>, p1: Seq<STopLevel>, l1: Set<Seq<u8>>|
                    #![trigger load_items(f, files, resolve, k, files(k), program, loaded.insert(k)), drive(n1, files, resolve, rest, keys1, p1, l1)]
                    {
                        &&& load_items(f, files, resolve, k, files(k), program, loaded.insert(k)) == Some((p1, l1))
                        &&& drive(n1, files, resolve, rest, keys1, p1, l1) == Some(r)
                        &&& n1 <= n - 1
                        &&& extends(keys1, keys_k)
                    };
                    assert(keys_a[m as int] == keys_k[m as int]);
                    lemma_drive_top(na, files, resolve, base, m, items.drop_first(), keys_a, pa, la, r);
                    let (fb, nb, keys_b, pb, lb) = choose|f: nat, n1: nat, keys1: Seq<Seq<u8>>, p1: Seq<STopLevel>, l1: Set<Seq<u8>>|
                    #![trigger load_items(f, files, resolve, key, items.drop_first(), pa, la), drive(n1, files, resolve, base, keys1, p1, l1)]
                    {
                        &&& load_items(f, files, resolve, key, items.drop_first(), pa, la) == Some((p1, l1))
                        &&& drive(n1, files, resolve, base, keys1, p1, l1) == Some(r)
                        &&& n1 <= na
                        &&& extends(keys1, keys_a)
                    };
                    let big: nat = fa + fb;
                    lemma_load_fuel(fa, big, files, resolve, k, files(k), program, loaded.insert(k));
                    lemma_load_fuel(fb, big, files, resolve, key, items.drop_first(), pa, la);
                    assert(load_items(big + 1, files, resolve, key, items, program, loaded) == Some((pb, lb)));
                    assert(extends(keys_b, keys));
                }
            },
            _ => {
                let x = items[0];
                assert(spec_next(frames, program) == spec_next(rest, program.push(x)));
                assert(drive(n, files, resolve, rest, keys, program.push(x), loaded) == Some(r));
                lemma_drive_top(n, files, resolve, base, m, items.drop_first(), keys, program.push(x), loaded, r);
                let (f, n1, keys1, p1, l1) = choose|f: nat, n1: nat, keys1: Seq<Seq<u8>>, p1: Seq<STopLevel>, l1: Set<Seq<u8>>|
                #![trigger load_items(f, files, resolve, key, items.drop_first(), program.push(x), loaded), drive(n1, files, resolve, base, keys1, p1, l1)]
                {
                    &&& load_items(f, files, resolve, key, items.drop_first(), program.push(x), loaded) == Some((p1, l1))
                    &&& drive(n1, files, resolve, base, keys1, p1, l1) == Some(r)
                    &&& n1 <= n
                    &&& extends(keys1, keys)
                };
                assert(load_items(f + 1, files, resolve, key, items, program, loaded) == Some((p1, l1)));
            },
        }
    }
}

/// Loading a whole program through the loader gives what loading it
/// recursively (`load_items`) gives: starting from the main module (path `root`), each
/// `use` is replaced in place by the items of the module it names, loaded the
/// same way, and a module begun before is skipped; the modules begun are the
/// same too.
pub proof fn law_load_splices_used_modules(
    n: nat,
    files: spec_fn(Seq<u8>) -> Seq<STopLevel>,
    resolve: spec_fn(Seq<u8>, Seq<char>) -> Seq<u8>,
    root: Seq<u8>,
    r: (Seq<STopLevel>, Set<Seq<u8>>),
)
    requires
        drive(n, files, resolve, seq![SFrame { module: 0, items: files(root) }], seq![root], Seq::empty(), set![root]) == Some(r),
    ensures
        exists|f: nat| #[trigger] load_items(f, files, resolve, root, files(root), Seq::empty(), set![root]) == Some(r),
{
    let base = Seq::<SFrame>::empty();
    assert(base.push(SFrame { module: 0, items: files(root) }) =~= seq![SFrame { module: 0, items: files(root) }]);
    lemma_drive_top(n, files, resolve, base, 0, files(root), seq![root], Seq::empty(), set![root], r);
    let (f, n1, keys1, p1, l1) = choose|f: nat, n1: nat, keys1: Seq<Seq<u8>>, p1: Seq<STopLevel>, l1: Set<Seq<u8>>|
    #![trigger load_items(f, files, resolve, root, files(root), Seq::empty(), set![root]), drive(n1, files, resolve, base, keys1, p1, l1)]
    {
        &&& load_items(f, files, resolve, root, files(root), Seq::empty(), set![root]) == Some((p1, l1))
        &&& drive(n1, files, resolve, base, keys1, p1, l1) == Some(r)
        &&& n1 <= n
        &&& extends(keys1, seq![root])
    };
    assert(spec_next(base, p1) == (base, p1, SLoadAction::Done));
    assert(r == (p1, l1));
}

} // verus!
