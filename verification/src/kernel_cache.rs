//! The names under which built kernels are kept, so that equal kernels are built once.

use vstd::prelude::*;

use crate::paths;
use crate::text;
use crate::workload;
use crate::workload::{OutputBuffer, SourceFile, WorkloadBuilder};

verus! {

/// What a build is known by.
#[derive(Clone, Debug, PartialEq, Eq, Hash)]
pub enum KernelKey {
    Name(String),
    /// The chip's generation and the workload.
    KernelParameters(String, Box<WorkloadBuilder>),
}

/// A workload as a value.
#[verifier::ext_equal]
pub struct BuilderView {
    pub use_local_cache: bool,
    pub available_space: u64,
    pub inputs: Seq<Seq<char>>,
    pub outputs: Seq<(Seq<char>, usize, usize)>,
    pub global: Seq<char>,
    pub brisc: Seq<char>,
    pub ncrisc: Seq<char>,
    pub trisc0: Seq<char>,
    pub trisc1: Seq<char>,
    pub trisc2: Seq<char>,
}

pub open spec fn outputs_view(outputs: Seq<OutputBuffer>) -> Seq<(Seq<char>, usize, usize)> {
    Seq::new(outputs.len(), |i: int| (outputs[i].name@, outputs[i].size, outputs[i].count))
}

impl View for WorkloadBuilder {
    type V = BuilderView;

    open spec fn view(&self) -> BuilderView {
        BuilderView {
            use_local_cache: self.use_local_cache,
            available_space: self.available_space,
            inputs: workload::strings(self.inputs@),
            outputs: outputs_view(self.outputs@),
            global: self.global@,
            brisc: self.brisc@,
            ncrisc: self.ncrisc@,
            trisc0: self.trisc0@,
            trisc1: self.trisc1@,
            trisc2: self.trisc2@,
        }
    }
}

/// A key as a value.
pub enum KeyView {
    Name(Seq<char>),
    KernelParameters(Seq<char>, BuilderView),
}

impl View for KernelKey {
    type V = KeyView;

    open spec fn view(&self) -> KeyView {
        match *self {
            KernelKey::Name(name) => KeyView::Name(name@),
            KernelKey::KernelParameters(arch, builder) => KeyView::KernelParameters(
                arch@,
                builder@,
            ),
        }
    }
}

fn same_strings(a: &Vec<String>, b: &Vec<String>) -> (same: bool)
    ensures
        same == (workload::strings(a@) == workload::strings(b@)),
{
    let ghost left = workload::strings(a@);
    let ghost right = workload::strings(b@);
    if a.len() != b.len() {
        assert(left.len() != right.len());
        return false;
    }
    for i in 0..a.len()
        invariant
            a@.len() == b@.len(),
            left == workload::strings(a@),
            right == workload::strings(b@),
            forall|j: int| 0 <= j < i ==> left[j] == right[j],
    {
        if a[i] != b[i] {
            assert(left[i as int] != right[i as int]);
            return false;
        }
    }
    assert(left =~= right);
    true
}

fn same_outputs(a: &Vec<OutputBuffer>, b: &Vec<OutputBuffer>) -> (same: bool)
    ensures
        same == (outputs_view(a@) == outputs_view(b@)),
{
    let ghost left = outputs_view(a@);
    let ghost right = outputs_view(b@);
    if a.len() != b.len() {
        assert(left.len() != right.len());
        return false;
    }
    for i in 0..a.len()
        invariant
            a@.len() == b@.len(),
            left == outputs_view(a@),
            right == outputs_view(b@),
            forall|j: int| 0 <= j < i ==> left[j] == right[j],
    {
        if a[i].name != b[i].name || a[i].size != b[i].size || a[i].count != b[i].count {
            assert(left[i as int] != right[i as int]);
            return false;
        }
    }
    assert(left =~= right);
    true
}

fn same_builder(a: &WorkloadBuilder, b: &WorkloadBuilder) -> (same: bool)
    ensures
        same == (a@ == b@),
{
    a.use_local_cache == b.use_local_cache && a.available_space == b.available_space
        && same_strings(&a.inputs, &b.inputs) && same_outputs(&a.outputs, &b.outputs) && a.global
        == b.global && a.brisc == b.brisc && a.ncrisc == b.ncrisc && a.trisc0 == b.trisc0
        && a.trisc1 == b.trisc1 && a.trisc2 == b.trisc2
}

impl KernelKey {
    /// Whether two keys are equal.
    pub fn same(&self, other: &KernelKey) -> (same: bool)
        ensures
            same == (self@ == other@),
    {
        match (self, other) {
            (KernelKey::Name(a), KernelKey::Name(b)) => *a == *b,
            (
                KernelKey::KernelParameters(arch, builder),
                KernelKey::KernelParameters(other_arch, other_builder),
            ) => *arch == *other_arch && same_builder(builder, other_builder),
            _ => false,
        }
    }
}

/// Whether `c` is one of the hexadecimal digits from `low` up to `high`.
pub open spec fn is_digit(c: char, low: int, high: int) -> bool {
    exists|d: int| low <= d < high && c == #[trigger] text::digit(d)
}

/// Whether `text` is a random UUID in lower case with hyphens: version 4, of the variant whose digit
/// is 8, 9, a or b.
pub open spec fn is_uuid(text: Seq<char>) -> bool {
    &&& text.len() == 36
    &&& forall|i: int|
        0 <= i < 36 ==> if i == 8 || i == 13 || i == 18 || i == 23 {
            #[trigger] text[i] == '-'
        } else if i == 14 {
            text[i] == '4'
        } else if i == 19 {
            is_digit(text[i], 8, 12)
        } else {
            is_digit(text[i], 0, 16)
        }
}

/// `uuid::Uuid::new_v4`, written out: a random UUID of version 4. Nothing is claimed of the random
/// digits.
#[verifier::external_body]
fn fresh_name() -> (name: String)
    ensures
        is_uuid(name@),
{
    uuid::Uuid::new_v4().to_string()
}

/// What a list of builds says.
pub open spec fn name_map(entries: Seq<(KernelKey, String)>) -> Map<KeyView, Seq<char>>
    decreases entries.len(),
{
    if entries.len() == 0 {
        Map::empty()
    } else {
        name_map(entries.drop_last()).insert(entries.last().0@, entries.last().1@)
    }
}

/// Whether no key occurs twice.
pub open spec fn keys_differ(entries: Seq<(KernelKey, String)>) -> bool {
    forall|i: int, j: int|
        0 <= i < j < entries.len() ==> (#[trigger] entries[i]).0@ != (#[trigger] entries[j]).0@
}

/// The names of the kernels that were built.
pub struct KernelCacheStore {
    entries: Vec<(KernelKey, String)>,
}

impl View for KernelCacheStore {
    type V = Map<KeyView, Seq<char>>;

    closed spec fn view(&self) -> Map<KeyView, Seq<char>> {
        name_map(self.entries@)
    }
}

/// The name that a kernel gets when there is none yet. A kernel known by its parameters gets
/// `fresh`.
pub open spec fn first_name(key: KeyView, fresh: Seq<char>) -> Seq<char> {
    match key {
        KeyView::Name(name) => name,
        KeyView::KernelParameters(..) => fresh,
    }
}

/// The name that a kernel has among `names`, or the one that it gets.
pub open spec fn resolved(
    names: Map<KeyView, Seq<char>>,
    key: KeyView,
    fresh: Seq<char>,
) -> Seq<char> {
    if names.contains_key(key) {
        names[key]
    } else {
        first_name(key, fresh)
    }
}

impl KernelKey {
    /// The name that a kernel gets when there is no table of names.
    pub fn name_without_cache(&self, fresh: String) -> (name: String)
        ensures
            name@ == first_name(self@, fresh@),
    {
        match self {
            KernelKey::Name(name) => name.clone(),
            KernelKey::KernelParameters(..) => fresh,
        }
    }
}

impl KernelCacheStore {
    #[verifier::type_invariant]
    spec fn well_formed(&self) -> bool {
        keys_differ(self.entries@)
    }

    pub fn new() -> (store: Self)
        ensures
            store@ == Map::<KeyView, Seq<char>>::empty(),
    {
        KernelCacheStore { entries: Vec::new() }
    }

    fn position(&self, key: &KernelKey) -> (found: Option<usize>)
        ensures
            match found {
                Some(i) => i < self.entries@.len() && self.entries@[i as int].0@ == key@,
                None => forall|i: int|
                    0 <= i < self.entries@.len() ==> (#[trigger] self.entries@[i]).0@ != key@,
            },
    {
        let mut i: usize = 0;
        while i < self.entries.len()
            invariant
                i <= self.entries@.len(),
                forall|j: int| 0 <= j < i ==> (#[trigger] self.entries@[j]).0@ != key@,
            decreases self.entries@.len() - i,
        {
            if self.entries[i].0.same(key) {
                return Some(i);
            }
            i = i + 1;
        }
        None
    }

    /// The name of the kernel `key`, where it has one.
    pub fn get(&self, key: &KernelKey) -> (name: Option<String>)
        ensures
            match name {
                Some(name) => self@.contains_key(key@) && name@ == self@[key@],
                None => !self@.contains_key(key@),
            },
    {
        proof {
            use_type_invariant(self);
            lemma_name_map(self.entries@);
        }
        match self.position(key) {
            Some(i) => Some(self.entries[i].1.clone()),
            None => None,
        }
    }

    /// The name of the kernel `key`. Where it has none yet it gets one, with `fresh` for a kernel
    /// that is known by its parameters.
    pub fn resolve(&mut self, key: KernelKey, fresh: String) -> (name: String)
        ensures
            name@ == resolved(old(self)@, key@, fresh@),
            final(self)@ == old(self)@.insert(key@, name@),
    {
        proof {
            use_type_invariant(&*self);
            lemma_name_map(self.entries@);
        }
        match self.position(&key) {
            Some(i) => {
                let name = self.entries[i].1.clone();
                assert(self@ =~= old(self)@.insert(key@, name@));
                name
            },
            None => {
                let name = key.name_without_cache(fresh);
                let mut entries: Vec<(KernelKey, String)> = Vec::new();
                std::mem::swap(&mut entries, &mut self.entries);
                let ghost before = entries@;
                entries.push((key, name.clone()));
                assert(entries@.drop_last() =~= before);
                self.entries = entries;
                name
            },
        }
    }

    /// The name of the kernel `key`. Where it has none yet it gets one: its own, or a random one
    /// where it is known by its parameters.
    pub fn name_for(&mut self, key: KernelKey) -> (name: String)
        ensures
            named(old(self)@, final(self)@, key@, name@),
    {
        let fresh = fresh_name();
        self.resolve(key, fresh)
    }

    /// The kernels and their names, for keeping them between runs.
    pub fn into_entries(self) -> (entries: Vec<(KernelKey, String)>)
        ensures
            keys_differ(entries@),
            name_map(entries@) == self@,
    {
        proof {
            use_type_invariant(&self);
        }
        self.entries
    }

    /// The kernels and their names that were kept. Of two entries with one key the later counts.
    pub fn from_entries(entries: Vec<(KernelKey, String)>) -> (store: Self)
        ensures
            store@ == name_map(entries@),
    {
        let ghost all = entries@;
        let mut store = KernelCacheStore::new();
        let mut entries = entries;
        assert(name_map(entries@).union_prefer_right(store@) =~= name_map(all));
        while entries.len() > 0
            invariant
                name_map(entries@).union_prefer_right(store@) == name_map(all),
            decreases entries@.len(),
        {
            let ghost before = entries@;
            let ghost known = store@;
            match entries.pop() {
                Some((key, name)) => {
                    assert(before.drop_last() =~= entries@);
                    store.adopt(key, name);
                    assert(name_map(entries@).union_prefer_right(store@) =~= name_map(
                        before,
                    ).union_prefer_right(known));
                },
                None => {},
            }
        }
        assert(store@ =~= name_map(entries@).union_prefer_right(store@));
        store
    }

    /// Notes the name of a kernel that has none yet.
    fn adopt(&mut self, key: KernelKey, name: String)
        ensures
            final(self)@ == if old(self)@.contains_key(key@) {
                old(self)@
            } else {
                old(self)@.insert(key@, name@)
            },
    {
        proof {
            use_type_invariant(&*self);
            lemma_name_map(self.entries@);
        }
        match self.position(&key) {
            Some(_) => {},
            None => {
                let mut entries: Vec<(KernelKey, String)> = Vec::new();
                std::mem::swap(&mut entries, &mut self.entries);
                let ghost before = entries@;
                entries.push((key, name));
                assert(entries@.drop_last() =~= before);
                self.entries = entries;
            },
        }
    }
}

/// The kernels that were built, and the file that their names are kept in.
pub struct KernelCache {
    pub path: String,
    pub cache: KernelCacheStore,
}

/// What asking for the name of a kernel does to the names that are known.
pub open spec fn named(
    before: Map<KeyView, Seq<char>>,
    after: Map<KeyView, Seq<char>>,
    key: KeyView,
    name: Seq<char>,
) -> bool {
    &&& after == before.insert(key, name)
    &&& if before.contains_key(key) {
        name == before[key]
    } else {
        first_named(key, name)
    }
}

/// Whether `name` is one that the kernel `key` can get where no name is known: its own, or a random
/// one where it is known by its parameters.
pub open spec fn first_named(key: KeyView, name: Seq<char>) -> bool {
    match key {
        KeyView::Name(own) => name == own,
        KeyView::KernelParameters(..) => is_uuid(name),
    }
}

/// Whether `kept` is where the sources of the kernel `name` are kept, next to the file `path`: there
/// in `src`, in a directory of the kernel's name, or where the name leads if it starts at the root.
/// Which separators stand in it is the platform's matter, and so is what lies next to a file with an
/// extraordinary path.
pub open spec fn keeps_sources(path: Seq<char>, name: Seq<char>, kept: Option<Seq<char>>) -> bool {
    &&& path.len() == 0 || path == seq!['/'] ==> kept is None
    &&& forall|dir: Seq<char>, file: Seq<char>| #[trigger]
        paths::lies_in(path, dir, file) ==> kept is Some && is_source_dir(dir, name, kept->0)
}

/// Whether `kept` is where the sources of the kernel `name` are kept, next to the files of `dir`.
pub open spec fn is_source_dir(dir: Seq<char>, name: Seq<char>, kept: Seq<char>) -> bool {
    &&& paths::extends_everywhere(name) ==> paths::unified(kept) == paths::under(
        paths::under(dir, "src"@),
        paths::unified(name),
    )
    &&& paths::rooted(name) ==> kept == name
}

/// Where the sources of the kernel `name` are kept, next to the file `path`. `None` where that has
/// no directory.
pub fn source_dir(path: &str, name: &str) -> (kept: Option<String>)
    ensures
        keeps_sources(path@, name@, paths::text_view(kept)),
{
    proof {
        reveal_strlit("src");
        assert(paths::relative_everywhere("src"@));
        assert(paths::unified("src"@) =~= "src"@);
    }
    match paths::beside(path, "src") {
        Some(src) => {
            let kept = paths::join_paths(src.as_str(), name);
            proof {
                assert forall|dir: Seq<char>, file: Seq<char>| #[trigger]
                    paths::lies_in(path@, dir, file) implies is_source_dir(dir, name@, kept@) by {
                    paths::lemma_directory(path@, dir, file);
                    if paths::extends_everywhere(name@) {
                        paths::joining_takes_one_separator(src@, name@, kept@);
                    }
                    lemma_src_is_unprefixed(dir, src@);
                }
            }
            Some(kept)
        },
        None => None,
    }
}

/// The directory of all sources has no prefix where the one that it is in has none.
proof fn lemma_src_is_unprefixed(dir: Seq<char>, src: Seq<char>)
    requires
        paths::unprefixed(dir),
        dir.len() == 0 || dir == seq!['/'] || dir.last() != '/',
        paths::unified(dir) == dir,
        paths::unified(src) == paths::under(dir, "src"@),
    ensures
        paths::unprefixed(src),
{
    reveal_strlit("src");
    let whole = paths::under(dir, "src"@);
    assert(whole.len() == src.len());
    assert forall|i: int| 0 <= i < src.len() implies #[trigger] src[i] != ':' && (
    paths::is_separator(src[i]) ==> whole[i] == '/') by {
        assert(paths::unified(src)[i] == whole[i]);
        if i < dir.len() {
            assert(whole[i] == dir[i]);
            assert(dir.contains(dir[i]));
        } else {
            let j = i - (whole.len() - 3);
            assert(j >= 0 ==> whole[i] == "src"@[j]);
            assert(j < 0 ==> whole[i] == '/');
        }
    }
    if src.len() >= 2 && paths::is_separator(src[0]) && paths::is_separator(src[1]) {
        assert(whole[0] == '/' && whole[1] == '/');
        assert(dir.len() > 1 ==> dir[0] == whole[0] && dir[1] == whole[1]);
    }
}

/// Where each of the files goes that are kept in `dir`.
pub fn place_sources(dir: &str, files: &Vec<SourceFile>) -> (placed: Vec<SourceFile>)
    ensures
        placed@.len() == files@.len(),
        forall|i: int|
            0 <= i < files@.len() ==> paths::leads_to(
                dir@,
                files@[i].path@,
                (#[trigger] placed@[i]).path@,
            ) && placed@[i].text@ == files@[i].text@,
{
    let mut placed: Vec<SourceFile> = Vec::new();
    for i in 0..files.len()
        invariant
            placed@.len() == i,
            forall|j: int|
                0 <= j < i ==> paths::leads_to(
                    dir@,
                    files@[j].path@,
                    (#[trigger] placed@[j]).path@,
                ) && placed@[j].text@ == files@[j].text@,
    {
        let path = paths::join_paths(dir, files[i].path.as_str());
        placed.push(SourceFile { path, text: files[i].text.clone() });
    }
    placed
}

impl KernelCache {
    /// The name to build the kernel `key` under, and where its sources are kept. Where the table of
    /// names is not `usable`, it is neither asked nor changed. There is no directory where the
    /// cache's file has none.
    pub fn cache_build(&mut self, key: KernelKey, usable: bool) -> (place: (String, Option<String>))
        ensures
            final(self).path == old(self).path,
            usable ==> named(old(self).cache@, final(self).cache@, key@, place.0@),
            !usable ==> final(self).cache@ == old(self).cache@ && first_named(key@, place.0@),
            keeps_sources(old(self).path@, place.0@, paths::text_view(place.1)),
    {
        let name = if usable {
            self.cache.name_for(key)
        } else {
            let fresh = fresh_name();
            key.name_without_cache(fresh)
        };
        let dir = source_dir(self.path.as_str(), name.as_str());
        (name, dir)
    }
}

/// In a list where keys differ, every entry says what the table holds.
proof fn lemma_name_map(entries: Seq<(KernelKey, String)>)
    requires
        keys_differ(entries),
    ensures
        forall|i: int|
            0 <= i < entries.len() ==> name_map(entries).contains_key((#[trigger] entries[i]).0@)
                && name_map(entries)[entries[i].0@] == entries[i].1@,
        forall|key: KeyView| #[trigger]
            name_map(entries).contains_key(key) ==> exists|i: int|
                0 <= i < entries.len() && (#[trigger] entries[i]).0@ == key,
    decreases entries.len(),
{
    if entries.len() > 0 {
        let rest = entries.drop_last();
        lemma_name_map(rest);
        assert forall|i: int| 0 <= i < entries.len() implies name_map(entries).contains_key(
            (#[trigger] entries[i]).0@,
        ) && name_map(entries)[entries[i].0@] == entries[i].1@ by {
            if i < rest.len() {
                assert(rest[i] == entries[i]);
            }
        }
        assert forall|key: KeyView| #[trigger] name_map(entries).contains_key(key) implies exists|
            i: int,
        | 0 <= i < entries.len() && (#[trigger] entries[i]).0@ == key by {
            if key == entries.last().0@ {
                assert(entries[entries.len() - 1].0@ == key);
            } else {
                assert(name_map(rest).contains_key(key));
                let i = choose|i: int| 0 <= i < rest.len() && (#[trigger] rest[i]).0@ == key;
                assert(entries[i].0@ == key);
            }
        }
    }
}

/// A kernel keeps its name: resolving it again gives the same name, whatever was resolved in
/// between, and whatever fresh name is at hand.
pub proof fn a_kernel_keeps_its_name(
    names: Map<KeyView, Seq<char>>,
    key: KeyView,
    fresh: Seq<char>,
    other: KeyView,
    other_fresh: Seq<char>,
    later_fresh: Seq<char>,
)
    ensures
        ({
            let name = resolved(names, key, fresh);
            let then = names.insert(key, name);
            let later = then.insert(other, resolved(then, other, other_fresh));
            resolved(later, key, later_fresh) == name
        }),
{
}

/// Whether the names that are known went from `before` to `after` when some kernel was built.
pub open spec fn some_named(
    before: Map<KeyView, Seq<char>>,
    after: Map<KeyView, Seq<char>>,
) -> bool {
    exists|key: KeyView, name: Seq<char>| named(before, after, key, name)
}

/// Whether the names that are known came one from the other by building kernels.
pub open spec fn names_follow(names: Seq<Map<KeyView, Seq<char>>>) -> bool {
    forall|i: int, j: int|
        0 <= i && j == i + 1 && j < names.len() ==> some_named(
            #[trigger] names[i],
            #[trigger] names[j],
        )
}

/// A name that is known stays known, whatever is asked for.
proof fn lemma_names_stay(names: Seq<Map<KeyView, Seq<char>>>, key: KeyView, i: int)
    requires
        names_follow(names),
        0 <= i < names.len(),
        names[0].contains_key(key),
    ensures
        names[i].contains_key(key),
        names[i][key] == names[0][key],
    decreases i,
{
    if i > 0 {
        lemma_names_stay(names, key, i - 1);
        assert(some_named(names[i - 1], names[i]));
    }
}

/// A random name is a relative path.
proof fn lemma_uuid_is_relative(name: Seq<char>)
    requires
        is_uuid(name),
    ensures
        paths::relative_everywhere(name),
{
    assert forall|i: int| 0 <= i < 36 implies #[trigger] name[i] != ':' && name[i] != '/'
        && name[i] != '\\' by {
        if i == 8 || i == 13 || i == 18 || i == 23 || i == 14 {
        } else {
            let high = if i == 19 {
                12
            } else {
                16int
            };
            let low = if i == 19 {
                8
            } else {
                0int
            };
            assert(is_digit(name[i], low, high));
            let d = choose|d: int| low <= d < high && name[i] == #[trigger] text::digit(d);
            assert(0 <= d < 16);
        }
    }
}

/// Equal kernels are kept in one place: two builds of one kernel give the same name and the same
/// directory, whatever was built in between. The name is the one that is known, else the kernel's
/// own, else a random one, and the directory is next to the cache's file, in `src`.
pub proof fn equal_kernels_are_kept_in_one_place(
    path: Seq<char>,
    dir: Seq<char>,
    file: Seq<char>,
    key: KeyView,
    before: Map<KeyView, Seq<char>>,
    between: Seq<Map<KeyView, Seq<char>>>,
    after: Map<KeyView, Seq<char>>,
    first: (Seq<char>, Option<Seq<char>>),
    second: (Seq<char>, Option<Seq<char>>),
)
    requires
        paths::lies_in(path, dir, file),
        between.len() > 0,
        named(before, between[0], key, first.0),
        keeps_sources(path, first.0, first.1),
        names_follow(between),
        named(between.last(), after, key, second.0),
        keeps_sources(path, second.0, second.1),
    ensures
        first.0 == second.0,
        before.contains_key(key) ==> first.0 == before[key],
        !before.contains_key(key) ==> first_named(key, first.0),
        first.1 is Some && is_source_dir(dir, first.0, first.1->0),
        second.1 is Some && is_source_dir(dir, first.0, second.1->0),
        paths::extends_everywhere(first.0) ==> paths::unified(first.1->0) == paths::unified(
            second.1->0,
        ),
        paths::rooted(first.0) ==> first.1 == second.1,
        !before.contains_key(key) && key is KernelParameters ==> paths::extends_everywhere(first.0),
{
    lemma_names_stay(between, key, between.len() - 1);
    if !before.contains_key(key) && key is KernelParameters {
        lemma_uuid_is_relative(first.0);
    }
}

/// Whether a file has to be written: it is not there, or it holds something else.
pub open spec fn must_be_written(existing: Option<Seq<u8>>, source: Seq<char>) -> bool {
    match existing {
        Some(bytes) => bytes != vstd::utf8::encode_utf8(source),
        None => true,
    }
}

/// Whether a file has to be written: it is not there, or it holds something else.
pub fn must_write(existing: &Option<Vec<u8>>, source: &String) -> (write: bool)
    ensures
        write == must_be_written(
            match *existing {
                Some(bytes) => Some(bytes@),
                None => None,
            },
            source@,
        ),
{
    match existing {
        Some(bytes) => {
            let wanted = source.as_str().as_bytes();
            !same_bytes(bytes.as_slice(), wanted)
        },
        None => true,
    }
}

/// What a disk holds at a path.
pub open spec fn on_disk(disk: Map<Seq<char>, Seq<u8>>, path: Seq<char>) -> Option<Seq<u8>> {
    if disk.contains_key(path) {
        Some(disk[path])
    } else {
        None
    }
}

/// A disk after the first `count` files were written that have to be.
pub open spec fn with_sources(
    disk: Map<Seq<char>, Seq<u8>>,
    files: Seq<(Seq<char>, Seq<char>)>,
    count: int,
) -> Map<Seq<char>, Seq<u8>>
    decreases count,
{
    if count <= 0 {
        disk
    } else {
        let before = with_sources(disk, files, count - 1);
        let (path, text) = files[count - 1];
        if must_be_written(on_disk(before, path), text) {
            before.insert(path, vstd::utf8::encode_utf8(text))
        } else {
            before
        }
    }
}

/// Files with different paths in one directory go to different places, on Unix and on Windows.
pub proof fn different_files_go_to_different_places(
    dir: Seq<char>,
    first: Seq<char>,
    second: Seq<char>,
    first_placed: Seq<char>,
    second_placed: Seq<char>,
)
    requires
        dir.len() > 0 ==> dir[0] != '\\' && dir.last() != '\\' && dir.last() != ':',
        paths::relative_everywhere(first),
        paths::relative_everywhere(second),
        paths::unified(first) != paths::unified(second),
        paths::leads_to(dir, first, first_placed),
        paths::leads_to(dir, second, second_placed),
    ensures
        first_placed != second_placed,
{
    paths::joining_takes_one_separator(dir, first, first_placed);
    paths::joining_takes_one_separator(dir, second, second_placed);
    let front = paths::under(paths::unified(dir), seq![]);
    assert(paths::under(paths::unified(dir), paths::unified(first)) =~= front + paths::unified(
        first,
    ));
    assert(paths::under(paths::unified(dir), paths::unified(second)) =~= front + paths::unified(
        second,
    ));
    assert((front + paths::unified(first)).skip(front.len() as int) =~= paths::unified(first));
    assert((front + paths::unified(second)).skip(front.len() as int) =~= paths::unified(second));
}

/// Writing the files that have to be written leaves every file with its text. A file that held its
/// text already is not written, and nothing else on the disk changes.
pub proof fn every_source_is_in_place(
    disk: Map<Seq<char>, Seq<u8>>,
    files: Seq<(Seq<char>, Seq<char>)>,
    count: int,
)
    requires
        0 <= count <= files.len(),
        forall|i: int, j: int|
            0 <= i < j < files.len() ==> (#[trigger] files[i]).0 != (#[trigger] files[j]).0,
    ensures
        forall|i: int|
            0 <= i < count ==> on_disk(with_sources(disk, files, count), (#[trigger] files[i]).0)
                == Some(vstd::utf8::encode_utf8(files[i].1)),
        forall|i: int|
            0 <= i < count && on_disk(disk, (#[trigger] files[i]).0) == Some(
                vstd::utf8::encode_utf8(files[i].1),
            ) ==> !must_be_written(on_disk(with_sources(disk, files, i), files[i].0), files[i].1),
        forall|path: Seq<char>|
            (forall|i: int| 0 <= i < count ==> (#[trigger] files[i]).0 != path)
                ==> #[trigger] on_disk(with_sources(disk, files, count), path) == on_disk(
                disk,
                path,
            ),
    decreases count,
{
    if count > 0 {
        every_source_is_in_place(disk, files, count - 1);
        let path = files[count - 1].0;
        assert(forall|i: int| 0 <= i < count - 1 ==> (#[trigger] files[i]).0 != path);
        assert(on_disk(with_sources(disk, files, count - 1), path) == on_disk(disk, path));
        assert forall|other: Seq<char>|
            (forall|i: int| 0 <= i < count ==> (#[trigger] files[i]).0 != other) implies
            #[trigger] on_disk(with_sources(disk, files, count), other) == on_disk(disk, other) by {
            assert(files[count - 1].0 != other);
            assert(on_disk(with_sources(disk, files, count - 1), other) == on_disk(disk, other));
        }
    }
}

/// After a build every one of its files is in place below the kernel's directory and holds its text;
/// one that held it before is not written again. The files are the ones that a build is given, with
/// different relative paths, and `placed` is where they go.
pub proof fn a_build_puts_its_files_in_place(
    disk: Map<Seq<char>, Seq<u8>>,
    dir: Seq<char>,
    files: Seq<(Seq<char>, Seq<char>)>,
    placed: Seq<(Seq<char>, Seq<char>)>,
)
    requires
        dir.len() > 0 ==> dir[0] != '\\' && dir.last() != '\\' && dir.last() != ':',
        placed.len() == files.len(),
        forall|i: int|
            0 <= i < files.len() ==> paths::relative_everywhere((#[trigger] files[i]).0)
                && paths::leads_to(dir, files[i].0, placed[i].0) && placed[i].1 == files[i].1,
        forall|i: int, j: int|
            0 <= i < j < files.len() ==> paths::unified((#[trigger] files[i]).0) != paths::unified(
                (#[trigger] files[j]).0,
            ),
    ensures
        forall|i: int|
            0 <= i < files.len() ==> {
                &&& paths::unified((#[trigger] placed[i]).0) == paths::under(
                    paths::unified(dir),
                    paths::unified(files[i].0),
                )
                &&& on_disk(with_sources(disk, placed, placed.len() as int), placed[i].0) == Some(
                    vstd::utf8::encode_utf8(files[i].1),
                )
                &&& on_disk(disk, placed[i].0) == Some(vstd::utf8::encode_utf8(files[i].1))
                    ==> !must_be_written(
                    on_disk(with_sources(disk, placed, i), placed[i].0),
                    files[i].1,
                )
            },
{
    assert forall|i: int, j: int| 0 <= i < j < placed.len() implies (#[trigger] placed[i]).0 != (
    #[trigger] placed[j]).0 by {
        assert(paths::unified(files[i].0) != paths::unified(files[j].0));
        different_files_go_to_different_places(
            dir,
            files[i].0,
            files[j].0,
            placed[i].0,
            placed[j].0,
        );
    }
    every_source_is_in_place(disk, placed, placed.len() as int);
    assert forall|i: int| 0 <= i < files.len() implies paths::unified((#[trigger] placed[i]).0)
        == paths::under(paths::unified(dir), paths::unified(files[i].0)) by {
        assert(paths::relative_everywhere(files[i].0));
        paths::joining_takes_one_separator(dir, files[i].0, placed[i].0);
    }
    assert forall|i: int| 0 <= i < placed.len() implies (#[trigger] placed[i]).1 == files[i].1 by {
        assert(paths::relative_everywhere(files[i].0));
    }
}

fn same_bytes(a: &[u8], b: &[u8]) -> (same: bool)
    ensures
        same == (a@ == b@),
{
    if a.len() != b.len() {
        return false;
    }
    for i in 0..a.len()
        invariant
            a@.len() == b@.len(),
            forall|j: int| 0 <= j < i ==> a@[j] == b@[j],
    {
        if a[i] != b[i] {
            return false;
        }
    }
    assert(a@ =~= b@);
    true
}

} // verus!
