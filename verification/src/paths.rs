//! Worktree identifiers, and the paths that configuration files are kept under.
use vstd::prelude::*;
use vstd::string::{StrSliceExecFns, StringExecFns};
use vstd::utf8::encode_utf8;

use crate::order::{
    byte_lt, bytes_lt, compare_bytes, lemma_rank_at, lemma_strict_total, parts_lt, rank_in, Parts,
    Rank,
};
use crate::sorted_map::OrderedKey;

verus! {

/// The name of an EditorConfig file.
pub const EDITORCONFIG_NAME: &'static str = ".editorconfig";

/// Identifies a worktree.
#[derive(Clone, Copy, Debug, PartialEq, Eq, Hash, Structural)]
pub struct WorktreeId(usize);

impl View for WorktreeId {
    type V = usize;

    closed spec fn view(&self) -> usize {
        self.0
    }
}

impl WorktreeId {
    pub fn from_usize(handle_id: usize) -> (id: WorktreeId)
        ensures
            id@ == handle_id,
    {
        WorktreeId(handle_id)
    }

    pub fn to_usize(self) -> (handle_id: usize)
        ensures
            handle_id == self@,
    {
        self.0
    }
}

/// What stands before the root of a path on platforms that have drives and shares, parsed. Names
/// are the bytes in which the platform encodes them.
#[derive(Debug, PartialEq, Eq)]
pub enum PathPrefix {
    /// As in `\\?\pictures`.
    Verbatim(Vec<u8>),
    /// As in `\\?\UNC\server\share`.
    VerbatimUNC(Vec<u8>, Vec<u8>),
    /// As in `\\.\COM42`.
    DeviceNS(Vec<u8>),
    /// As in `\\server\share`.
    UNC(Vec<u8>, Vec<u8>),
    /// As in `\\?\C:`.
    VerbatimDisk(u8),
    /// As in `C:`.
    Disk(u8),
}

/// A component of an [`AbsPath`]. Names are the bytes in which the platform encodes them.
#[derive(Debug, PartialEq, Eq)]
pub enum PathComponent {
    Prefix(PathPrefix),
    RootDir,
    CurDir,
    ParentDir,
    Normal(Vec<u8>),
}

/// What a [`PathPrefix`] is.
pub enum PrefixModel {
    Verbatim(Seq<u8>),
    VerbatimUNC(Seq<u8>, Seq<u8>),
    DeviceNS(Seq<u8>),
    UNC(Seq<u8>, Seq<u8>),
    VerbatimDisk(u8),
    Disk(u8),
}

/// What a [`PathComponent`] is.
pub enum ComponentModel {
    Prefix(PrefixModel),
    RootDir,
    CurDir,
    ParentDir,
    Normal(Seq<u8>),
}

/// A letter of the English alphabet in upper case; any other byte as it is.
pub open spec fn upper_case(letter: u8) -> u8 {
    if 97 <= letter <= 122 {
        (letter - 32) as u8
    } else {
        letter
    }
}

impl PrefixModel {
    /// The one form of all spellings of a prefix: drives are told by letters in upper case.
    pub open spec fn canonical(self) -> PrefixModel {
        match self {
            PrefixModel::VerbatimDisk(letter) => PrefixModel::VerbatimDisk(upper_case(letter)),
            PrefixModel::Disk(letter) => PrefixModel::Disk(upper_case(letter)),
            _ => self,
        }
    }

    /// Whether what follows the prefix is taken as it is written.
    pub open spec fn is_verbatim(self) -> bool {
        self is Verbatim || self is VerbatimUNC || self is VerbatimDisk
    }

    /// The place of the prefix's sort among the sorts.
    pub open spec fn tag(self) -> u8 {
        match self {
            PrefixModel::Verbatim(_) => 0,
            PrefixModel::VerbatimUNC(_, _) => 1,
            PrefixModel::DeviceNS(_) => 2,
            PrefixModel::UNC(_, _) => 3,
            PrefixModel::VerbatimDisk(_) => 4,
            PrefixModel::Disk(_) => 5,
        }
    }

    pub open spec fn names(self) -> Parts {
        match self {
            PrefixModel::Verbatim(name) => seq![name],
            PrefixModel::VerbatimUNC(server, share) => seq![server, share],
            PrefixModel::DeviceNS(name) => seq![name],
            PrefixModel::UNC(server, share) => seq![server, share],
            PrefixModel::VerbatimDisk(letter) => seq![seq![letter]],
            PrefixModel::Disk(letter) => seq![seq![letter]],
        }
    }
}

impl ComponentModel {
    /// The one form of all spellings of a component.
    pub open spec fn canonical(self) -> ComponentModel {
        match self {
            ComponentModel::Prefix(prefix) => ComponentModel::Prefix(prefix.canonical()),
            _ => self,
        }
    }

    /// The place of the component's sort among the sorts; the sorts of prefixes come first.
    pub open spec fn tag(self) -> u8 {
        match self {
            ComponentModel::Prefix(prefix) => prefix.tag(),
            ComponentModel::RootDir => 6,
            ComponentModel::CurDir => 7,
            ComponentModel::ParentDir => 8,
            ComponentModel::Normal(_) => 9,
        }
    }

    pub open spec fn names(self) -> Parts {
        match self {
            ComponentModel::Prefix(prefix) => prefix.names(),
            ComponentModel::Normal(name) => seq![name],
            _ => Seq::empty(),
        }
    }

    /// Components are ordered by their sort, then by their names.
    pub open spec fn ranked_by(self) -> Parts {
        seq![seq![self.tag()]] + self.names()
    }

    proof fn lemma_ranked_by_injective(a: ComponentModel, b: ComponentModel)
        requires
            a.ranked_by() == b.ranked_by(),
        ensures
            a == b,
    {
        assert(a.ranked_by()[0][0] == a.tag());
        assert(b.ranked_by()[0][0] == b.tag());
        assert forall|i: int| 0 <= i < a.names().len() implies #[trigger] a.names()[i]
            == b.names()[i] by {
            assert(a.ranked_by()[i + 1] == a.names()[i]);
            assert(b.ranked_by()[i + 1] == b.names()[i]);
        }
        assert(a.names().len() > 0 ==> a.names()[0] == b.names()[0]);
        assert(a.names().len() > 1 ==> a.names()[1] == b.names()[1]);
        assert(a.names().len() > 0 && a.names()[0].len() > 0 ==> a.names()[0][0]
            == b.names()[0][0]);
    }

    /// The sort of a component decides its rank, then its names do.
    proof fn lemma_rank(a: ComponentModel, b: ComponentModel)
        ensures
            a.tag() < b.tag() ==> rank_in(parts_lt(), a.ranked_by(), b.ranked_by()) == Rank::Less,
            b.tag() < a.tag() ==> rank_in(parts_lt(), a.ranked_by(), b.ranked_by())
                == Rank::Greater,
            a.tag() == b.tag() && a.names().len() == 0 ==> rank_in(
                parts_lt(),
                a.ranked_by(),
                b.ranked_by(),
            ) == Rank::Equal,
            a.tag() == b.tag() && a.names().len() == 1 ==> rank_in(
                parts_lt(),
                a.ranked_by(),
                b.ranked_by(),
            ) == rank_in(bytes_lt(), a.names()[0], b.names()[0]),
            a.tag() == b.tag() && a.names().len() == 2 ==> rank_in(
                parts_lt(),
                a.ranked_by(),
                b.ranked_by(),
            ) == (if a.names()[0] != b.names()[0] {
                rank_in(bytes_lt(), a.names()[0], b.names()[0])
            } else {
                rank_in(bytes_lt(), a.names()[1], b.names()[1])
            }),
    {
        let x = a.ranked_by();
        let y = b.ranked_by();
        lemma_strict_total();
        assert(x[0] == seq![a.tag()] && y[0] == seq![b.tag()]);
        if a.tag() != b.tag() {
            assert(x[0][0] == a.tag() && y[0][0] == b.tag());
            lemma_rank_at(bytes_lt(), x, y, 0);
            lemma_rank_at(byte_lt(), x[0], y[0], 0);
        } else {
            assert(x.len() == y.len() == a.names().len() + 1);
            if a.names().len() == 0 {
                lemma_rank_at(bytes_lt(), x, y, 1);
            } else {
                assert(x[1] == a.names()[0] && y[1] == b.names()[0]);
                if x[1] != y[1] {
                    lemma_rank_at(bytes_lt(), x, y, 1);
                } else if a.names().len() == 1 {
                    lemma_rank_at(bytes_lt(), x, y, 2);
                } else {
                    assert(x[2] == a.names()[1] && y[2] == b.names()[1]);
                    let i: int = if x[2] != y[2] {
                        2
                    } else {
                        3
                    };
                    lemma_rank_at(bytes_lt(), x, y, i);
                }
            }
        }
    }
}

impl View for PathPrefix {
    type V = PrefixModel;

    open spec fn view(&self) -> PrefixModel {
        match self {
            PathPrefix::Verbatim(name) => PrefixModel::Verbatim(name@),
            PathPrefix::VerbatimUNC(server, share) => PrefixModel::VerbatimUNC(server@, share@),
            PathPrefix::DeviceNS(name) => PrefixModel::DeviceNS(name@),
            PathPrefix::UNC(server, share) => PrefixModel::UNC(server@, share@),
            PathPrefix::VerbatimDisk(letter) => PrefixModel::VerbatimDisk(*letter),
            PathPrefix::Disk(letter) => PrefixModel::Disk(*letter),
        }
    }
}

impl View for PathComponent {
    type V = ComponentModel;

    open spec fn view(&self) -> ComponentModel {
        match self {
            PathComponent::Prefix(prefix) => ComponentModel::Prefix(prefix@),
            PathComponent::RootDir => ComponentModel::RootDir,
            PathComponent::CurDir => ComponentModel::CurDir,
            PathComponent::ParentDir => ComponentModel::ParentDir,
            PathComponent::Normal(name) => ComponentModel::Normal(name@),
        }
    }
}

impl Clone for PathPrefix {
    fn clone(&self) -> (copy: Self)
        ensures
            copy@ == self@,
    {
        match self {
            PathPrefix::Verbatim(name) => PathPrefix::Verbatim(copy_bytes(name)),
            PathPrefix::VerbatimUNC(server, share) => PathPrefix::VerbatimUNC(
                copy_bytes(server),
                copy_bytes(share),
            ),
            PathPrefix::DeviceNS(name) => PathPrefix::DeviceNS(copy_bytes(name)),
            PathPrefix::UNC(server, share) => PathPrefix::UNC(
                copy_bytes(server),
                copy_bytes(share),
            ),
            PathPrefix::VerbatimDisk(letter) => PathPrefix::VerbatimDisk(*letter),
            PathPrefix::Disk(letter) => PathPrefix::Disk(*letter),
        }
    }
}

impl Clone for PathComponent {
    fn clone(&self) -> (copy: Self)
        ensures
            copy@ == self@,
    {
        match self {
            PathComponent::Prefix(prefix) => PathComponent::Prefix(prefix.clone()),
            PathComponent::RootDir => PathComponent::RootDir,
            PathComponent::CurDir => PathComponent::CurDir,
            PathComponent::ParentDir => PathComponent::ParentDir,
            PathComponent::Normal(name) => PathComponent::Normal(copy_bytes(name)),
        }
    }
}

fn copy_bytes(bytes: &Vec<u8>) -> (copy: Vec<u8>)
    ensures
        copy@ == bytes@,
{
    let mut copy: Vec<u8> = Vec::new();
    let mut i: usize = 0;
    while i < bytes.len()
        invariant
            i <= bytes@.len(),
            copy@ == bytes@.take(i as int),
        decreases bytes@.len() - i,
    {
        copy.push(bytes[i]);
        i = i + 1;
        assert(bytes@.take(i as int) =~= bytes@.take(i - 1).push(bytes@[i - 1]));
    }
    assert(bytes@.take(i as int) =~= bytes@);
    copy
}

fn to_upper_case(letter: u8) -> (upper: u8)
    ensures
        upper == upper_case(letter),
{
    if 97 <= letter && letter <= 122 {
        letter - 32
    } else {
        letter
    }
}

/// Compares two bytes as byte strings.
fn compare_letters(a: u8, b: u8) -> (rank: Rank)
    ensures
        rank == rank_in(bytes_lt(), seq![a], seq![b]),
{
    proof {
        let i: int = if a == b {
            1
        } else {
            0
        };
        lemma_rank_at(byte_lt(), seq![a], seq![b], i);
    }
    if a < b {
        Rank::Less
    } else if b < a {
        Rank::Greater
    } else {
        Rank::Equal
    }
}

/// Compares two pairs of byte strings.
fn compare_pairs(a: &[u8], b: &[u8], c: &[u8], d: &[u8]) -> (rank: Rank)
    ensures
        rank == (if a@ != c@ {
            rank_in(bytes_lt(), a@, c@)
        } else {
            rank_in(bytes_lt(), b@, d@)
        }),
{
    let rank = compare_bytes(a, c);
    match rank {
        Rank::Equal => compare_bytes(b, d),
        _ => rank,
    }
}

impl PathPrefix {
    fn tag(&self) -> (tag: u8)
        ensures
            tag == self@.tag(),
    {
        match self {
            PathPrefix::Verbatim(_) => 0,
            PathPrefix::VerbatimUNC(_, _) => 1,
            PathPrefix::DeviceNS(_) => 2,
            PathPrefix::UNC(_, _) => 3,
            PathPrefix::VerbatimDisk(_) => 4,
            PathPrefix::Disk(_) => 5,
        }
    }

    /// Whether what follows the prefix is taken as it is written.
    pub fn is_verbatim(&self) -> (verbatim: bool)
        ensures
            verbatim == self@.is_verbatim(),
    {
        match self {
            PathPrefix::Verbatim(_) => true,
            PathPrefix::VerbatimUNC(_, _) => true,
            PathPrefix::VerbatimDisk(_) => true,
            _ => false,
        }
    }

    fn into_canonical(self) -> (canonical: PathPrefix)
        ensures
            canonical@ == self@.canonical(),
    {
        match self {
            PathPrefix::VerbatimDisk(letter) => PathPrefix::VerbatimDisk(to_upper_case(letter)),
            PathPrefix::Disk(letter) => PathPrefix::Disk(to_upper_case(letter)),
            other => other,
        }
    }

    /// Compares two prefixes of one sort by their names.
    fn compare_names(&self, other: &PathPrefix) -> (rank: Rank)
        requires
            self@.tag() == other@.tag(),
        ensures
            rank == rank_in(
                parts_lt(),
                ComponentModel::Prefix(self@).ranked_by(),
                ComponentModel::Prefix(other@).ranked_by(),
            ),
    {
        proof {
            ComponentModel::lemma_rank(
                ComponentModel::Prefix(self@),
                ComponentModel::Prefix(other@),
            );
        }
        match (self, other) {
            (PathPrefix::Verbatim(a), PathPrefix::Verbatim(b)) => compare_bytes(a, b),
            (PathPrefix::VerbatimUNC(a, b), PathPrefix::VerbatimUNC(c, d)) => compare_pairs(
                a,
                b,
                c,
                d,
            ),
            (PathPrefix::DeviceNS(a), PathPrefix::DeviceNS(b)) => compare_bytes(a, b),
            (PathPrefix::UNC(a, b), PathPrefix::UNC(c, d)) => compare_pairs(a, b, c, d),
            (PathPrefix::VerbatimDisk(a), PathPrefix::VerbatimDisk(b)) => compare_letters(*a, *b),
            (PathPrefix::Disk(a), PathPrefix::Disk(b)) => compare_letters(*a, *b),
            _ => Rank::Equal,
        }
    }
}

impl PathComponent {
    fn tag(&self) -> (tag: u8)
        ensures
            tag == self@.tag(),
    {
        match self {
            PathComponent::Prefix(prefix) => prefix.tag(),
            PathComponent::RootDir => 6,
            PathComponent::CurDir => 7,
            PathComponent::ParentDir => 8,
            PathComponent::Normal(_) => 9,
        }
    }

    fn compare(&self, other: &PathComponent) -> (rank: Rank)
        ensures
            rank == rank_in(parts_lt(), self@.ranked_by(), other@.ranked_by()),
    {
        proof {
            ComponentModel::lemma_rank(self@, other@);
        }
        let a: u8 = self.tag();
        let b: u8 = other.tag();
        if a < b {
            Rank::Less
        } else if b < a {
            Rank::Greater
        } else {
            match (self, other) {
                (PathComponent::Prefix(a), PathComponent::Prefix(b)) => a.compare_names(b),
                (PathComponent::Normal(a), PathComponent::Normal(b)) => compare_bytes(a, b),
                _ => Rank::Equal,
            }
        }
    }
}

/// A path of the file system, as its components. Two spellings of one drive make one path.
#[derive(Debug, PartialEq, Eq)]
pub struct AbsPath {
    components: Vec<PathComponent>,
}

impl View for AbsPath {
    type V = Seq<ComponentModel>;

    closed spec fn view(&self) -> Seq<ComponentModel> {
        self.components@.map_values(|c: PathComponent| c@)
    }
}

/// The path of the directory that holds what `path` leads to: there is none
/// where `path` is empty or ends in a root or a prefix.
pub open spec fn parent_of(path: Seq<ComponentModel>) -> Option<Seq<ComponentModel>> {
    if path.len() == 0 || path.last() is RootDir || path.last() is Prefix {
        None
    } else {
        Some(path.drop_last())
    }
}

/// Whether a path is a verbatim prefix and nothing else.
pub open spec fn is_bare_verbatim(path: Seq<ComponentModel>) -> bool {
    path.len() == 1 && (path[0] matches ComponentModel::Prefix(prefix) && prefix.is_verbatim())
}

/// The path of the EditorConfig file in a directory. A separator that follows a verbatim prefix
/// is a root.
pub open spec fn editorconfig_in(dir: Seq<ComponentModel>) -> Seq<ComponentModel> {
    let dir = if is_bare_verbatim(dir) {
        dir.push(ComponentModel::RootDir)
    } else {
        dir
    };
    dir.push(ComponentModel::Normal(encode_utf8(EDITORCONFIG_NAME@)))
}

impl AbsPath {
    pub fn from_components(components: Vec<PathComponent>) -> (path: AbsPath)
        ensures
            path@ == components@.map_values(|c: PathComponent| c@.canonical()),
    {
        let ghost all = components@.map_values(|c: PathComponent| c@.canonical());
        let mut components = components;
        let mut path = AbsPath { components: Vec::new() };
        assert(path@ =~= all.take(0));
        let ghost given = components@;
        let n: usize = components.len();
        let mut i: usize = 0;
        while i < n
            invariant
                i <= n,
                n == given.len(),
                components@ == given.skip(i as int),
                all == given.map_values(|c: PathComponent| c@.canonical()),
                path@ == all.take(i as int),
            decreases n - i,
        {
            let component = components.remove(0);
            assert(component == given[i as int]);
            assert(components@ =~= given.skip(i + 1));
            let canonical = match component {
                PathComponent::Prefix(prefix) => PathComponent::Prefix(prefix.into_canonical()),
                other => other,
            };
            path.push(canonical);
            assert(all.take(i + 1) =~= all.take(i as int).push(all[i as int]));
            i = i + 1;
        }
        assert(all.take(i as int) =~= all);
        path
    }

    pub fn components(&self) -> (components: &Vec<PathComponent>)
        ensures
            components@.map_values(|c: PathComponent| c@) == self@,
    {
        &self.components
    }

    /// The path made of the first `n` components.
    fn truncated(&self, n: usize) -> (path: AbsPath)
        requires
            n <= self@.len(),
        ensures
            path@ == self@.take(n as int),
    {
        let mut components: Vec<PathComponent> = Vec::new();
        let mut i: usize = 0;
        while i < n
            invariant
                i <= n <= self@.len(),
                components@.map_values(|c: PathComponent| c@) == self@.take(i as int),
            decreases n - i,
        {
            let copy = self.components[i].clone();
            let ghost earlier = components@;
            components.push(copy);
            i = i + 1;
            assert(self@.take(i as int) =~= self@.take(i - 1).push(self@[i - 1]));
            assert(components@.map_values(|c: PathComponent| c@) =~= earlier.map_values(
                |c: PathComponent| c@,
            ).push(copy@));
        }
        AbsPath { components }
    }

    pub fn parent(&self) -> (parent: Option<AbsPath>)
        ensures
            match parent {
                Some(p) => parent_of(self@) == Some(p@),
                None => parent_of(self@) is None,
            },
    {
        let n: usize = self.components.len();
        if n == 0 {
            return None;
        }
        assert(self@.last() == self.components@.last()@);
        match &self.components[n - 1] {
            PathComponent::RootDir => None,
            PathComponent::Prefix(_) => None,
            _ => {
                assert(self@.take(n - 1) =~= self@.drop_last());
                Some(self.truncated(n - 1))
            },
        }
    }

    fn push(&mut self, component: PathComponent)
        ensures
            final(self)@ == old(self)@.push(component@),
    {
        let ghost before = self@;
        self.components.push(component);
        assert(self@ =~= before.push(component@));
    }

    /// Whether the path is a verbatim prefix and nothing else.
    fn is_bare_verbatim(&self) -> (bare: bool)
        ensures
            bare == is_bare_verbatim(self@),
    {
        if self.components.len() != 1 {
            return false;
        }
        assert(self@[0] == self.components@[0]@);
        match &self.components[0] {
            PathComponent::Prefix(prefix) => prefix.is_verbatim(),
            _ => false,
        }
    }

    /// The path of the EditorConfig file in the directory that this path leads to.
    pub fn editorconfig_file(&self) -> (file: AbsPath)
        ensures
            file@ == editorconfig_in(self@),
    {
        let mut file = self.truncated(self.components.len());
        assert(self@.take(self@.len() as int) =~= self@);
        if self.is_bare_verbatim() {
            file.push(PathComponent::RootDir);
        }
        file.push(PathComponent::Normal(EDITORCONFIG_NAME.as_bytes_vec()));
        file
    }
}

impl Clone for AbsPath {
    fn clone(&self) -> (copy: Self)
        ensures
            copy@ == self@,
    {
        assert(self@.take(self@.len() as int) =~= self@);
        self.truncated(self.components.len())
    }
}

impl OrderedKey for AbsPath {
    open spec fn ranked_by(key: Seq<ComponentModel>) -> Seq<Parts> {
        key.map_values(|c: ComponentModel| c.ranked_by())
    }

    proof fn lemma_ranked_by_injective(a: Seq<ComponentModel>, b: Seq<ComponentModel>) {
        assert(Self::ranked_by(a).len() == a.len());
        assert(Self::ranked_by(b).len() == b.len());
        assert forall|i: int| 0 <= i < a.len() implies a[i] == b[i] by {
            assert(Self::ranked_by(a)[i] == a[i].ranked_by());
            assert(Self::ranked_by(b)[i] == b[i].ranked_by());
            ComponentModel::lemma_ranked_by_injective(a[i], b[i]);
        }
        assert(a =~= b);
    }

    fn compare(&self, other: &Self) -> (rank: Rank) {
        let ghost x = Self::ranked_by(self@);
        let ghost y = Self::ranked_by(other@);
        let n: usize = self.components.len();
        let m: usize = other.components.len();
        let mut i: usize = 0;
        while i < n && i < m
            invariant
                i <= n,
                i <= m,
                n == self.components@.len(),
                m == other.components@.len(),
                x == Self::ranked_by(self@),
                y == Self::ranked_by(other@),
                forall|j: int| 0 <= j < i ==> #[trigger] x[j] == y[j],
            decreases n - i,
        {
            let rank = self.components[i].compare(&other.components[i]);
            assert(x[i as int] == self.components@[i as int]@.ranked_by());
            assert(y[i as int] == other.components@[i as int]@.ranked_by());
            match rank {
                Rank::Equal => {},
                _ => {
                    proof {
                        lemma_strict_total();
                        lemma_rank_at(parts_lt(), x, y, i as int);
                    }
                    return rank;
                },
            }
            i = i + 1;
        }
        proof {
            lemma_strict_total();
            lemma_rank_at(parts_lt(), x, y, i as int);
        }
        if i < m {
            Rank::Less
        } else if i < n {
            Rank::Greater
        } else {
            Rank::Equal
        }
    }
}

/// Whether a name can be a component of a relative, normalized path.
pub open spec fn valid_name(name: Seq<char>) -> bool {
    &&& name.len() > 0
    &&& !name.contains('/')
    &&& name != "."@
    &&& name != ".."@
}

/// The names, with a slash between each and the next.
pub open spec fn slash_joined(names: Seq<Seq<char>>) -> Seq<char>
    decreases names.len(),
{
    if names.len() == 0 {
        Seq::empty()
    } else if names.len() == 1 {
        names[0]
    } else {
        slash_joined(names.drop_last()) + "/"@ + names.last()
    }
}

fn is_valid_name(name: &str) -> (valid: bool)
    ensures
        valid == valid_name(name@),
{
    let n: usize = name.unicode_len();
    if n == 0 {
        return false;
    }
    let mut i: usize = 0;
    while i < n
        invariant
            i <= n,
            n == name@.len(),
            forall|j: int| 0 <= j < i ==> name@[j] != '/',
        decreases n - i,
    {
        if name.get_char(i) == '/' {
            assert(name@.contains(name@[i as int]));
            return false;
        }
        i = i + 1;
    }
    proof {
        reveal_strlit(".");
        reveal_strlit("..");
    }
    if n == 1 && name.get_char(0) == '.' {
        assert(name@ =~= "."@);
        return false;
    }
    if n == 2 && name.get_char(0) == '.' && name.get_char(1) == '.' {
        assert(name@ =~= ".."@);
        return false;
    }
    true
}

/// A path relative to the root of a worktree, normalized: the empty path is the root itself.
#[derive(Debug, PartialEq, Eq)]
pub struct RelPath {
    components: Vec<String>,
}

impl View for RelPath {
    type V = Seq<Seq<char>>;

    closed spec fn view(&self) -> Seq<Seq<char>> {
        self.components@.map_values(|c: String| c@)
    }
}

impl RelPath {
    #[verifier::type_invariant]
    spec fn normalized(self) -> bool {
        forall|i: int| 0 <= i < self.components@.len() ==> valid_name(#[trigger] self.components@[i]@)
    }

    /// The root of the worktree.
    pub fn empty() -> (path: RelPath)
        ensures
            path@ == Seq::<Seq<char>>::empty(),
    {
        let path = RelPath { components: Vec::new() };
        assert(path@ =~= Seq::<Seq<char>>::empty());
        path
    }

    /// The path with the given components, if it is a normalized one.
    pub fn from_components(components: Vec<String>) -> (path: Option<RelPath>)
        ensures
            path is Some <==> forall|i: int|
                0 <= i < components@.len() ==> valid_name(#[trigger] components@[i]@),
            path matches Some(p) ==> p@ == components@.map_values(|c: String| c@),
    {
        let mut i: usize = 0;
        while i < components.len()
            invariant
                i <= components@.len(),
                forall|j: int| 0 <= j < i ==> valid_name(#[trigger] components@[j]@),
            decreases components@.len() - i,
        {
            if !is_valid_name(components[i].as_str()) {
                return None;
            }
            i = i + 1;
        }
        Some(RelPath { components })
    }

    pub fn components(&self) -> (components: &Vec<String>)
        ensures
            components@.map_values(|c: String| c@) == self@,
            forall|i: int| 0 <= i < self@.len() ==> valid_name(#[trigger] self@[i]),
    {
        proof {
            use_type_invariant(self);
            assert(forall|i: int| 0 <= i < self@.len() ==> self@[i] == self.components@[i]@);
        }
        &self.components
    }

    fn copied_components(&self) -> (components: Vec<String>)
        ensures
            components@.len() == self.components@.len(),
            forall|i: int|
                0 <= i < components@.len() ==> (#[trigger] components@[i])@
                    == self.components@[i]@,
    {
        let mut components: Vec<String> = Vec::new();
        let mut i: usize = 0;
        while i < self.components.len()
            invariant
                i <= self.components@.len(),
                components@.len() == i,
                forall|j: int|
                    0 <= j < i ==> (#[trigger] components@[j])@ == self.components@[j]@,
            decreases self.components@.len() - i,
        {
            components.push(self.components[i].clone());
            i = i + 1;
        }
        components
    }

    /// The path of the EditorConfig file in the directory that this path leads to.
    pub fn editorconfig_file(&self) -> (file: RelPath)
        ensures
            file@ == self@.push(EDITORCONFIG_NAME@),
    {
        proof {
            use_type_invariant(self);
            reveal_strlit(".editorconfig");
            reveal_strlit(".");
            reveal_strlit("..");
            let name = EDITORCONFIG_NAME@;
            assert(name.len() == 13);
            assert("."@.len() == 1);
            assert("..".view().len() == 2);
            assert(forall|j: int| 0 <= j < name.len() ==> name[j] != '/');
            assert(valid_name(name));
        }
        let mut components = self.copied_components();
        components.push(EDITORCONFIG_NAME.to_owned());
        let file = RelPath { components };
        assert(file@ =~= self@.push(EDITORCONFIG_NAME@));
        file
    }

    /// Whether this path leads to `other` or to something below it.
    pub fn starts_with(&self, other: &RelPath) -> (result: bool)
        ensures
            result == other@.is_prefix_of(self@),
    {
        let n: usize = other.components.len();
        if n > self.components.len() {
            return false;
        }
        let mut i: usize = 0;
        while i < n
            invariant
                i <= n <= self.components@.len(),
                n == other.components@.len(),
                forall|j: int|
                    0 <= j < i ==> #[trigger] self.components@[j]@ == other.components@[j]@,
            decreases n - i,
        {
            if !(self.components[i] == other.components[i]) {
                proof {
                    if other@.is_prefix_of(self@) {
                        assert(other@[i as int] == self@.subrange(0, n as int)[i as int]);
                    }
                }
                return false;
            }
            i = i + 1;
        }
        proof {
            assert forall|j: int| 0 <= j < n implies other@[j] == self@.subrange(
                0,
                n as int,
            )[j] by {
                assert(self.components@[j]@ == other.components@[j]@);
            }
            assert(other@ =~= self@.subrange(0, n as int));
        }
        true
    }

    /// The path as text, with slashes between its components.
    pub fn as_unix_str(&self) -> (text: String)
        ensures
            text@ == slash_joined(self@),
    {
        let mut text = String::new();
        let mut i: usize = 0;
        assert(self@.take(0) =~= Seq::<Seq<char>>::empty());
        while i < self.components.len()
            invariant
                i <= self.components@.len(),
                text@ == slash_joined(self@.take(i as int)),
            decreases self.components@.len() - i,
        {
            let ghost names = self@.take(i + 1);
            assert(names.drop_last() =~= self@.take(i as int));
            assert(names.last() == self.components@[i as int]@);
            if i > 0 {
                text.append("/");
            }
            text.append(self.components[i].as_str());
            assert(i == 0 ==> text@ =~= names[0]);
            i = i + 1;
        }
        assert(self@.take(self@.len() as int) =~= self@);
        text
    }
}

impl Clone for RelPath {
    fn clone(&self) -> (copy: Self)
        ensures
            copy@ == self@,
    {
        proof {
            use_type_invariant(self);
        }
        let copy = RelPath { components: self.copied_components() };
        assert(copy@ =~= self@);
        copy
    }
}

impl OrderedKey for RelPath {
    open spec fn ranked_by(key: Seq<Seq<char>>) -> Seq<Parts> {
        key.map_values(|c: Seq<char>| seq![encode_utf8(c)])
    }

    proof fn lemma_ranked_by_injective(a: Seq<Seq<char>>, b: Seq<Seq<char>>) {
        assert(Self::ranked_by(a).len() == a.len());
        assert(Self::ranked_by(b).len() == b.len());
        assert forall|i: int| 0 <= i < a.len() implies a[i] == b[i] by {
            assert(Self::ranked_by(a)[i][0] == encode_utf8(a[i]));
            assert(Self::ranked_by(b)[i][0] == encode_utf8(b[i]));
            vstd::utf8::encode_utf8_decode_utf8(a[i]);
            vstd::utf8::encode_utf8_decode_utf8(b[i]);
        }
        assert(a =~= b);
    }

    fn compare(&self, other: &Self) -> (rank: Rank) {
        let ghost x = Self::ranked_by(self@);
        let ghost y = Self::ranked_by(other@);
        let n: usize = self.components.len();
        let m: usize = other.components.len();
        let mut i: usize = 0;
        while i < n && i < m
            invariant
                i <= n,
                i <= m,
                n == self.components@.len(),
                m == other.components@.len(),
                x == Self::ranked_by(self@),
                y == Self::ranked_by(other@),
                forall|j: int| 0 <= j < i ==> #[trigger] x[j] == y[j],
            decreases n - i,
        {
            let rank = compare_bytes(
                self.components[i].as_str().as_bytes(),
                other.components[i].as_str().as_bytes(),
            );
            proof {
                assert(x[i as int] == seq![encode_utf8(self.components@[i as int]@)]);
                assert(y[i as int] == seq![encode_utf8(other.components@[i as int]@)]);
                let at: int = if rank is Equal {
                    1
                } else {
                    0
                };
                lemma_strict_total();
                lemma_rank_at(bytes_lt(), x[i as int], y[i as int], at);
            }
            match rank {
                Rank::Equal => {},
                _ => {
                    proof {
                        lemma_strict_total();
                        lemma_rank_at(parts_lt(), x, y, i as int);
                    }
                    return rank;
                },
            }
            i = i + 1;
        }
        proof {
            lemma_strict_total();
            lemma_rank_at(parts_lt(), x, y, i as int);
        }
        if i < m {
            Rank::Less
        } else if i < n {
            Rank::Greater
        } else {
            Rank::Equal
        }
    }
}

/// The path of a settings file or of its directory: in a worktree or outside of every one.
#[derive(Debug, PartialEq, Eq)]
pub enum LocalSettingsPath {
    InWorktree(RelPath),
    OutsideWorktree(AbsPath),
}

/// What a [`LocalSettingsPath`] is.
pub enum LocalPathModel {
    InWorktree(Seq<Seq<char>>),
    OutsideWorktree(Seq<ComponentModel>),
}

impl View for LocalSettingsPath {
    type V = LocalPathModel;

    open spec fn view(&self) -> LocalPathModel {
        match self {
            LocalSettingsPath::InWorktree(path) => LocalPathModel::InWorktree(path@),
            LocalSettingsPath::OutsideWorktree(path) => LocalPathModel::OutsideWorktree(path@),
        }
    }
}

/// A directory comes before everything below it.
pub proof fn lemma_ancestor_before(
    a: Seq<ComponentModel>,
    b: Seq<ComponentModel>,
)
    requires
        a.is_prefix_of(b),
        a != b,
    ensures
        crate::order::before(AbsPath::ranked_by(a), AbsPath::ranked_by(b)),
{
    let x = AbsPath::ranked_by(a);
    let y = AbsPath::ranked_by(b);
    assert(x =~= y.subrange(0, x.len() as int)) by {
        assert forall|i: int| 0 <= i < x.len() implies x[i] == y[i] by {
            assert(b.subrange(0, a.len() as int)[i] == b[i]);
        }
    }
    if x == y {
        AbsPath::lemma_ranked_by_injective(a, b);
    }
    crate::order::lemma_prefix_before(x, y);
}

/// A directory of a worktree comes before everything below it.
pub proof fn lemma_worktree_ancestor_before(a: Seq<Seq<char>>, b: Seq<Seq<char>>)
    requires
        a.is_prefix_of(b),
        a != b,
    ensures
        crate::order::before(RelPath::ranked_by(a), RelPath::ranked_by(b)),
{
    let x = RelPath::ranked_by(a);
    let y = RelPath::ranked_by(b);
    assert(x =~= y.subrange(0, x.len() as int)) by {
        assert forall|i: int| 0 <= i < x.len() implies x[i] == y[i] by {
            assert(b.subrange(0, a.len() as int)[i] == b[i]);
        }
    }
    if x == y {
        RelPath::lemma_ranked_by_injective(a, b);
    }
    crate::order::lemma_prefix_before(x, y);
}

} // verus!
