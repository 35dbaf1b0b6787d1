//! What holds of paths: their parents, their texts, and their order.
use vstd::prelude::*;
use vstd::utf8::encode_utf8;

use crate::order::{before, byte_lt, bytes_lt, decided_at, parts_lt, Parts};
use crate::paths::{
    editorconfig_in, parent_of, slash_joined, valid_name, AbsPath, ComponentModel, PrefixModel,
    RelPath, EDITORCONFIG_NAME,
};
use crate::sorted_map::OrderedKey;

verus! {

/// The parent of a path is the path without its last component. A path that ends in a root or a
/// prefix has none, and neither has the empty path.
pub proof fn law_parent(path: Seq<ComponentModel>, last: ComponentModel)
    ensures
        parent_of(Seq::empty()) is None,
        parent_of(path.push(last)) == (match last {
            ComponentModel::Prefix(_) => None,
            ComponentModel::RootDir => None,
            ComponentModel::CurDir => Some(path),
            ComponentModel::ParentDir => Some(path),
            ComponentModel::Normal(_) => Some(path),
        }),
{
    assert(path.push(last).drop_last() =~= path);
}

/// The EditorConfig file in a directory has the directory as its parent, and its own name; a bare
/// verbatim prefix gets a root between the two.
pub proof fn law_config_file(dir: Seq<ComponentModel>)
    ensures
        editorconfig_in(dir).last() == ComponentModel::Normal(encode_utf8(EDITORCONFIG_NAME@)),
        EDITORCONFIG_NAME@ == ".editorconfig"@,
        ({
            let bare = dir.len() == 1 && match dir[0] {
                ComponentModel::Prefix(PrefixModel::Verbatim(_)) => true,
                ComponentModel::Prefix(PrefixModel::VerbatimUNC(_, _)) => true,
                ComponentModel::Prefix(PrefixModel::VerbatimDisk(_)) => true,
                _ => false,
            };
            parent_of(editorconfig_in(dir)) == Some(
                if bare {
                    dir.push(ComponentModel::RootDir)
                } else {
                    dir
                },
            )
        }),
{
    assert(editorconfig_in(dir).drop_last() =~= dir || editorconfig_in(dir).drop_last()
        =~= dir.push(ComponentModel::RootDir));
}

/// The text of a path in a worktree is that of its names, with a slash before each but the first.
pub proof fn law_text_of_path(names: Seq<Seq<char>>, name: Seq<char>)
    ensures
        slash_joined(Seq::empty()) == Seq::<char>::empty(),
        names.len() == 0 ==> slash_joined(names.push(name)) == name,
        names.len() > 0 ==> slash_joined(names.push(name)) == slash_joined(names) + "/"@ + name,
{
    assert(names.push(name).drop_last() =~= names);
}

/// A name can be any text that is not empty, holds no slash, and is neither of the two that stand
/// for directories.
pub proof fn law_names(name: Seq<char>)
    ensures
        valid_name(name) <==> {
            &&& name.len() > 0
            &&& forall|i: int| 0 <= i < name.len() ==> #[trigger] name[i] != '/'
            &&& name != "."@
            &&& name != ".."@
        },
{
    if name.contains('/') {
        let i = choose|i: int| 0 <= i < name.len() && name[i] == '/';
        assert(name[i] == '/');
    }
    if exists|i: int| 0 <= i < name.len() && #[trigger] name[i] == '/' {
        let i = choose|i: int| 0 <= i < name.len() && #[trigger] name[i] == '/';
        assert(name.contains(name[i]));
    }
}

/// Two letters stand for one drive if and only if they are the same, or differ in case alone. No
/// other component has more than one spelling.
pub proof fn law_spellings(a: u8, b: u8, component: ComponentModel)
    ensures
        ({
            let same = a == b || (65 <= a <= 90 && b == a + 32) || (65 <= b <= 90 && a == b + 32);
            &&& PrefixModel::Disk(a).canonical() == PrefixModel::Disk(b).canonical() <==> same
            &&& PrefixModel::VerbatimDisk(a).canonical() == PrefixModel::VerbatimDisk(b).canonical()
                <==> same
        }),
        PrefixModel::Disk(a).canonical() is Disk,
        PrefixModel::VerbatimDisk(a).canonical() is VerbatimDisk,
        65 <= a <= 90 ==> PrefixModel::Disk(a).canonical() == PrefixModel::Disk(a)
            && PrefixModel::VerbatimDisk(a).canonical() == PrefixModel::VerbatimDisk(a),
        match component {
            ComponentModel::Prefix(PrefixModel::Disk(letter)) => component.canonical()
                == ComponentModel::Prefix(PrefixModel::Disk(letter).canonical()),
            ComponentModel::Prefix(PrefixModel::VerbatimDisk(letter)) => component.canonical()
                == ComponentModel::Prefix(PrefixModel::VerbatimDisk(letter).canonical()),
            _ => component.canonical() == component,
        },
{
}

/// Whether a byte string comes before another: they agree up to a place where it ends, or has the
/// smaller byte.
pub open spec fn is_smaller(a: Seq<u8>, b: Seq<u8>, at: int) -> bool {
    &&& 0 <= at <= a.len()
    &&& at < b.len()
    &&& forall|i: int| 0 <= i < at ==> #[trigger] a[i] == b[i]
    &&& at < a.len() ==> a[at] < b[at]
}

/// Whether two paths agree before a component that both have.
pub open spec fn agree_before<T>(a: Seq<T>, b: Seq<T>, at: int) -> bool {
    &&& 0 <= at < a.len()
    &&& at < b.len()
    &&& forall|i: int| 0 <= i < at ==> #[trigger] a[i] == b[i]
}

/// Where paths differ first in a name, the smaller name comes first.
pub proof fn law_names_in_order(
    a: Seq<ComponentModel>,
    b: Seq<ComponentModel>,
    at: int,
    byte: int,
)
    requires
        agree_before(a, b, at),
        a[at] is Normal,
        b[at] is Normal,
        is_smaller(a[at]->Normal_0, b[at]->Normal_0, byte),
    ensures
        before(AbsPath::ranked_by(a), AbsPath::ranked_by(b)),
{
    let x = a[at].ranked_by();
    let y = b[at].ranked_by();
    assert(x[0] =~= y[0]);
    assert(x[1] == a[at]->Normal_0 && y[1] == b[at]->Normal_0);
    assert(decided_at(byte_lt(), x[1], y[1], byte));
    assert(bytes_lt()(x[1], y[1]));
    lemma_decided(a, b, at, 1);
}

/// Where paths differ first in the sort of a component, prefixes come first, then roots, then the
/// current and the parent directory, and names come last.
pub proof fn law_sorts_in_order(a: Seq<ComponentModel>, b: Seq<ComponentModel>, at: int)
    requires
        agree_before(a, b, at),
        match a[at] {
            ComponentModel::Prefix(_) => !(b[at] is Prefix),
            ComponentModel::RootDir => b[at] is CurDir || b[at] is ParentDir || b[at] is Normal,
            ComponentModel::CurDir => b[at] is ParentDir || b[at] is Normal,
            ComponentModel::ParentDir => b[at] is Normal,
            ComponentModel::Normal(_) => false,
        },
    ensures
        before(AbsPath::ranked_by(a), AbsPath::ranked_by(b)),
{
    lemma_sorts_decide(a, b, at);
}

/// Where paths differ first in the sort of a prefix, the sorts come in their order.
pub proof fn law_prefix_sorts_in_order(
    a: Seq<ComponentModel>,
    b: Seq<ComponentModel>,
    at: int,
    p: PrefixModel,
    q: PrefixModel,
)
    requires
        agree_before(a, b, at),
        a[at] == ComponentModel::Prefix(p),
        b[at] == ComponentModel::Prefix(q),
        match p {
            PrefixModel::Verbatim(_) => !(q is Verbatim),
            PrefixModel::VerbatimUNC(_, _) => !(q is Verbatim || q is VerbatimUNC),
            PrefixModel::DeviceNS(_) => q is UNC || q is VerbatimDisk || q is Disk,
            PrefixModel::UNC(_, _) => q is VerbatimDisk || q is Disk,
            PrefixModel::VerbatimDisk(_) => q is Disk,
            PrefixModel::Disk(_) => false,
        },
    ensures
        before(AbsPath::ranked_by(a), AbsPath::ranked_by(b)),
{
    lemma_sorts_decide(a, b, at);
}

/// Where paths differ first in prefixes of one sort, the smaller drive letter or name comes first;
/// of shares the server weighs more.
pub proof fn law_prefixes_in_order(
    a: Seq<ComponentModel>,
    b: Seq<ComponentModel>,
    at: int,
    p: PrefixModel,
    q: PrefixModel,
    byte: int,
)
    requires
        agree_before(a, b, at),
        a[at] == ComponentModel::Prefix(p),
        b[at] == ComponentModel::Prefix(q),
        match (p, q) {
            (PrefixModel::Verbatim(x), PrefixModel::Verbatim(y)) => is_smaller(x, y, byte),
            (PrefixModel::DeviceNS(x), PrefixModel::DeviceNS(y)) => is_smaller(x, y, byte),
            (PrefixModel::VerbatimUNC(x, v), PrefixModel::VerbatimUNC(y, w)) => is_smaller(
                x,
                y,
                byte,
            ) || (x == y && is_smaller(v, w, byte)),
            (PrefixModel::UNC(x, v), PrefixModel::UNC(y, w)) => is_smaller(x, y, byte) || (x == y
                && is_smaller(v, w, byte)),
            (PrefixModel::VerbatimDisk(x), PrefixModel::VerbatimDisk(y)) => x < y,
            (PrefixModel::Disk(x), PrefixModel::Disk(y)) => x < y,
            _ => false,
        },
    ensures
        before(AbsPath::ranked_by(a), AbsPath::ranked_by(b)),
{
    let x = a[at].ranked_by();
    let y = b[at].ranked_by();
    assert(x[0] =~= y[0]);
    assert(x[1] == p.names()[0] && y[1] == q.names()[0]);
    let (part, place): (int, int) = match (p, q) {
        (PrefixModel::VerbatimUNC(u, _), PrefixModel::VerbatimUNC(v, _)) => if u == v {
            (2, byte)
        } else {
            (1, byte)
        },
        (PrefixModel::UNC(u, _), PrefixModel::UNC(v, _)) => if u == v {
            (2, byte)
        } else {
            (1, byte)
        },
        (PrefixModel::VerbatimDisk(_), _) => (1, 0),
        (PrefixModel::Disk(_), _) => (1, 0),
        _ => (1, byte),
    };
    if part == 2 {
        assert(x[2] == p.names()[1] && y[2] == q.names()[1]);
        if is_smaller(x[1], y[1], byte) {
            assert(byte < x[1].len() ==> x[1][byte] < y[1][byte]);
        }
    }
    assert(decided_at(byte_lt(), x[part], y[part], place));
    assert(bytes_lt()(x[part], y[part]));
    lemma_decided(a, b, at, part);
}

/// Where paths in a worktree differ first in a name, the name whose text has the smaller bytes
/// comes first.
pub proof fn law_worktree_names_in_order(
    a: Seq<Seq<char>>,
    b: Seq<Seq<char>>,
    at: int,
    byte: int,
)
    requires
        agree_before(a, b, at),
        is_smaller(encode_utf8(a[at]), encode_utf8(b[at]), byte),
    ensures
        before(RelPath::ranked_by(a), RelPath::ranked_by(b)),
{
    let ra = RelPath::ranked_by(a);
    let rb = RelPath::ranked_by(b);
    assert(ra[at][0] == encode_utf8(a[at]) && rb[at][0] == encode_utf8(b[at]));
    assert(decided_at(byte_lt(), ra[at][0], rb[at][0], byte));
    assert(bytes_lt()(ra[at][0], rb[at][0]));
    assert(decided_at(bytes_lt(), ra[at], rb[at], 0));
    assert(parts_lt()(ra[at], rb[at]));
    assert forall|i: int| 0 <= i < at implies #[trigger] ra[i] == rb[i] by {
        assert(a[i] == b[i]);
    }
    assert(decided_at(parts_lt(), ra, rb, at));
}

proof fn lemma_sorts_decide(a: Seq<ComponentModel>, b: Seq<ComponentModel>, at: int)
    requires
        agree_before(a, b, at),
        a[at].tag() < b[at].tag(),
    ensures
        before(AbsPath::ranked_by(a), AbsPath::ranked_by(b)),
{
    let x: Parts = a[at].ranked_by();
    let y: Parts = b[at].ranked_by();
    assert(x[0][0] == a[at].tag() && y[0][0] == b[at].tag());
    assert(decided_at(byte_lt(), x[0], y[0], 0));
    assert(bytes_lt()(x[0], y[0]));
    lemma_decided(a, b, at, 0);
}

/// The first part of the first component in which two paths differ decides their order.
proof fn lemma_decided(a: Seq<ComponentModel>, b: Seq<ComponentModel>, at: int, part: int)
    requires
        agree_before(a, b, at),
        0 <= part < a[at].ranked_by().len(),
        part < b[at].ranked_by().len(),
        forall|i: int|
            0 <= i < part ==> #[trigger] a[at].ranked_by()[i] == b[at].ranked_by()[i],
        bytes_lt()(a[at].ranked_by()[part], b[at].ranked_by()[part]),
    ensures
        before(AbsPath::ranked_by(a), AbsPath::ranked_by(b)),
{
    let ra = AbsPath::ranked_by(a);
    let rb = AbsPath::ranked_by(b);
    assert(ra[at] == a[at].ranked_by() && rb[at] == b[at].ranked_by());
    assert(decided_at(bytes_lt(), ra[at], rb[at], part));
    assert(parts_lt()(ra[at], rb[at]));
    assert forall|i: int| 0 <= i < at implies #[trigger] ra[i] == rb[i] by {
        assert(a[i] == b[i]);
    }
    assert(decided_at(parts_lt(), ra, rb, at));
}

} // verus!
