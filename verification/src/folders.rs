//! Components derived from folders: the files of a scope grouped by the
//! first folders of their paths, each group named relative to the folder
//! that all groups share.
use vstd::prelude::*;
use vstd::string::StringSliceAdditionalSpecFns;
use vstd::utf8::{decode_utf8, encode_utf8, is_char_boundary};

use crate::config::{NamedSourceCodeAspectConfig, SourceFileFilterConfig};
use crate::ir::FileRecord;
use crate::pathset::{str_eq, PathSet};
use crate::scopes::{replace_char, replace_char_in};
use crate::text::{chars_of, contains_string, lemma_split_on_nonempty, split_chars, split_on, string_of, views};

verus! {

/// The deepest folder level searched for components.
pub const MAX_COMPONENT_SEARCH_DEPTH: usize = 20;

// ---------------------------------------------------------------------------
// Component folders of files
// ---------------------------------------------------------------------------

/// The segments joined, each followed by `/`.
pub open spec fn slash_join(segs: Seq<Seq<char>>) -> Seq<char>
    decreases segs.len(),
{
    if segs.len() == 0 {
        Seq::empty()
    } else {
        slash_join(segs.drop_last()) + segs.last() + seq!['/']
    }
}

/// The folder of a file at `depth`: its first `depth` folders (at most all
/// of them), joined by `/`.
pub open spec fn folder_name(path: Seq<char>, depth: nat) -> Seq<char> {
    let segs = split_on(replace_char(path, '\\', '/'), '/');
    let n = if depth < segs.len() - 1 {
        depth as int
    } else {
        segs.len() - 1
    };
    let joined = slash_join(segs.take(n));
    if joined.len() > 1 {
        joined.drop_last()
    } else {
        joined
    }
}

/// The folder of the file at `relative_path` at folder depth `depth`.
pub fn folder_based_component_name(relative_path: &str, depth: usize) -> (r: String)
    ensures
        r@ == folder_name(relative_path@, depth as nat),
{
    let normalized = replace_char_in(relative_path, '\\', '/');
    let chars = chars_of(normalized.as_str());
    let segs = split_chars(chars.as_slice(), '/');
    let ghost sv = segs@.map_values(|l: Vec<char>| l@);
    proof {
        lemma_split_on_nonempty(chars@, '/');
    }
    let count = if depth < segs.len() - 1 {
        depth
    } else {
        segs.len() - 1
    };
    let mut path: Vec<char> = Vec::new();
    let mut k: usize = 0;
    while k < count
        invariant
            k <= count,
            count < segs@.len(),
            sv == segs@.map_values(|l: Vec<char>| l@),
            path@ == slash_join(sv.take(k as int)),
        decreases count - k,
    {
        let seg = &segs[k];
        let mut j: usize = 0;
        let ghost start = path@;
        while j < seg.len()
            invariant
                j <= seg@.len(),
                path@ == start + seg@.take(j as int),
            decreases seg@.len() - j,
        {
            path.push(seg[j]);
            proof {
                assert(seg@.take(j + 1) =~= seg@.take(j as int).push(seg@[j as int]));
            }
            j += 1;
        }
        path.push('/');
        proof {
            assert(seg@.take(seg@.len() as int) =~= seg@);
            assert(sv.take(k + 1).drop_last() =~= sv.take(k as int));
            assert(sv.take(k + 1).last() == seg@);
            assert(path@ =~= slash_join(sv.take(k + 1)));
        }
        k += 1;
    }
    if path.len() > 1 {
        path.pop();
    }
    string_of(path.as_slice())
}

/// The distinct folders of the files in scope at `depth`, in the order of
/// their first file.
pub open spec fn component_paths(files: Seq<FileRecord>, scope: PathSet, depth: nat) -> Seq<Seq<char>>
    decreases files.len(),
{
    if files.len() == 0 {
        Seq::empty()
    } else {
        let prev = component_paths(files.drop_last(), scope, depth);
        let p = files.last().relative_path@;
        if scope.has(p) && !prev.contains(folder_name(p, depth)) {
            prev.push(folder_name(p, depth))
        } else {
            prev
        }
    }
}

/// The distinct folders of the files in scope at `depth`.
pub fn unique_component_paths(files: &Vec<FileRecord>, scope: &PathSet, depth: usize) -> (r: Vec<String>)
    requires
        scope.wf(),
    ensures
        views(r@) == component_paths(files@, *scope, depth as nat),
{
    let mut paths: Vec<String> = Vec::new();
    let mut i: usize = 0;
    while i < files.len()
        invariant
            i <= files@.len(),
            scope.wf(),
            views(paths@) == component_paths(files@.take(i as int), *scope, depth as nat),
        decreases files@.len() - i,
    {
        proof {
            assert(files@.take(i + 1).drop_last() =~= files@.take(i as int));
            assert(files@.take(i + 1).last() == files@[i as int]);
        }
        if scope.contains(files[i].relative_path.as_str()) {
            let component_path = folder_based_component_name(files[i].relative_path.as_str(), depth);
            if !contains_string(&paths, &component_path) {
                let ghost before = views(paths@);
                paths.push(component_path);
                proof {
                    assert(views(paths@) =~= before.push(component_path@));
                }
            }
        }
        i += 1;
    }
    proof {
        assert(files@.take(files@.len() as int) =~= files@);
    }
    paths
}

// ---------------------------------------------------------------------------
// The common folder
// ---------------------------------------------------------------------------

/// The UTF-8 encodings of the texts.
pub open spec fn byte_texts(ss: Seq<Seq<char>>) -> Seq<Seq<u8>> {
    ss.map_values(|s: Seq<char>| encode_utf8(s))
}

/// The length of the shortest byte string (0 for none).
pub open spec fn min_len(bs: Seq<Seq<u8>>) -> nat
    decreases bs.len(),
{
    if bs.len() == 0 {
        0
    } else if bs.len() == 1 {
        bs[0].len()
    } else {
        let m = min_len(bs.drop_last());
        if bs.last().len() < m {
            bs.last().len()
        } else {
            m
        }
    }
}

proof fn lemma_min_len(bs: Seq<Seq<u8>>)
    ensures
        forall|k: int| 0 <= k < bs.len() ==> min_len(bs) <= (#[trigger] bs[k]).len(),
        bs.len() > 0 ==> exists|k: int| 0 <= k < bs.len() && min_len(bs) == (#[trigger] bs[k]).len(),
    decreases bs.len(),
{
    if bs.len() > 1 {
        lemma_min_len(bs.drop_last());
        assert forall|k: int| 0 <= k < bs.len() implies min_len(bs) <= (#[trigger] bs[k]).len() by {
            if k < bs.len() - 1 {
                assert(bs.drop_last()[k] == bs[k]);
            }
        }
        if bs.last().len() >= min_len(bs.drop_last()) {
            assert(bs.drop_last().len() > 0);
            let k = choose|k: int| 0 <= k < bs.len() - 1 && min_len(bs.drop_last()) == (#[trigger] bs.drop_last()[k]).len();
            assert(bs[k] == bs.drop_last()[k]);
        } else {
            assert(min_len(bs) == bs[bs.len() - 1].len());
        }
    } else if bs.len() == 1 {
        assert(min_len(bs) == bs[0].len());
    }
}

/// Every byte string has the first one's byte at `i`.
pub open spec fn all_agree_at(bs: Seq<Seq<u8>>, i: int) -> bool {
    forall|k: int| 0 <= k < bs.len() ==> (#[trigger] bs[k])[i] == bs[0][i]
}

/// The first position from `i` below `m` where the byte strings disagree,
/// or `m`.
pub open spec fn agreement(bs: Seq<Seq<u8>>, i: nat, m: nat) -> nat
    decreases m - i,
{
    if i >= m {
        m
    } else if all_agree_at(bs, i as int) {
        agreement(bs, i + 1, m)
    } else {
        i
    }
}

/// The length of the longest common byte prefix.
pub open spec fn common_byte_len(bs: Seq<Seq<u8>>) -> nat {
    agreement(bs, 0, min_len(bs))
}

/// Position of the last `/` or `\` (-1 for none).
pub open spec fn last_separator(p: Seq<char>) -> int
    decreases p.len(),
{
    if p.len() == 0 {
        -1
    } else if p.last() == '/' || p.last() == '\\' {
        p.len() - 1
    } else {
        last_separator(p.drop_last())
    }
}

proof fn lemma_last_separator(p: Seq<char>)
    ensures
        -1 <= last_separator(p) < p.len(),
    decreases p.len(),
{
    if p.len() > 0 {
        lemma_last_separator(p.drop_last());
    }
}

/// The text up to and including its last folder separator (nothing when it
/// has none).
pub open spec fn folder_prefix(p: Seq<char>) -> Seq<char> {
    p.take(last_separator(p) + 1)
}

/// The common prefix ends on a character boundary of the first text.
pub open spec fn gcp_defined(ss: Seq<Seq<char>>) -> bool {
    ss.len() > 0 ==> is_char_boundary(encode_utf8(ss[0]), common_byte_len(byte_texts(ss)) as int)
}

/// The folder that all texts share: the longest common (byte) prefix, cut
/// back to its last separator.
pub open spec fn common_folder(ss: Seq<Seq<char>>) -> Seq<char> {
    if ss.len() == 0 {
        Seq::empty()
    } else {
        folder_prefix(decode_utf8(encode_utf8(ss[0]).take(common_byte_len(byte_texts(ss)) as int)))
    }
}

/// `prefix` up to and including its last `/` or `\`.
pub fn whole_folder_prefix(prefix: &str) -> (r: String)
    ensures
        r@ == folder_prefix(prefix@),
{
    let chars = chars_of(prefix);
    let mut i: usize = chars.len();
    proof {
        assert(chars@.take(i as int) =~= chars@);
    }
    while i > 0 && chars[i - 1] != '/' && chars[i - 1] != '\\'
        invariant
            i <= chars@.len(),
            chars@ == prefix@,
            last_separator(prefix@) == last_separator(chars@.take(i as int)),
        decreases i,
    {
        proof {
            assert(chars@.take(i as int).drop_last() =~= chars@.take(i - 1));
        }
        i -= 1;
    }
    proof {
        lemma_last_separator(chars@.take(i as int));
    }
    let mut r: Vec<char> = Vec::new();
    let mut k: usize = 0;
    while k < i
        invariant
            k <= i <= chars@.len(),
            r@ == chars@.take(k as int),
        decreases i - k,
    {
        r.push(chars[k]);
        proof {
            assert(chars@.take(k + 1) =~= chars@.take(k as int).push(chars@[k as int]));
        }
        k += 1;
    }
    string_of(r.as_slice())
}

/// The text of the first `n` bytes of `s`.
fn byte_prefix(s: &str, n: usize) -> (r: String)
    requires
        is_char_boundary(encode_utf8(s@), n as int),
    ensures
        r@ == decode_utf8(encode_utf8(s@).take(n as int)),
{
    let (a, _b) = s.split_at(n);
    proof {
        vstd::utf8::encode_utf8_decode_utf8(a@);
        assert(encode_utf8(s@).take(n as int) =~= encode_utf8(s@).subrange(0, n as int));
    }
    a.to_owned()
}

/// The length of the longest byte prefix that all the texts share.
fn common_byte_length(strings: &Vec<String>) -> (n: usize)
    requires
        strings@.len() > 0,
    ensures
        n == common_byte_len(byte_texts(views(strings@))),
{
    let ghost bs = byte_texts(views(strings@));
    proof {
        lemma_min_len(bs);
    }
    let mut min_length: usize = strings[0].as_str().as_bytes().len();
    let mut j: usize = 1;
    proof {
        assert(views(strings@)[0] == strings@[0]@);
        assert(min_length == encode_utf8(strings@[0]@).len());
        assert(bs.take(1).len() == 1);
        assert(bs.take(1)[0] == bs[0]);
        assert(bs[0] == encode_utf8(strings@[0]@));
    }
    while j < strings.len()
        invariant
            1 <= j <= strings@.len(),
            bs == byte_texts(views(strings@)),
            min_length == min_len(bs.take(j as int)),
        decreases strings@.len() - j,
    {
        proof {
            assert(bs.take(j + 1).drop_last() =~= bs.take(j as int));
            assert(bs.take(j + 1).last() == bs[j as int]);
            assert(views(strings@)[j as int] == strings@[j as int]@);
            assert(bs[j as int] == encode_utf8(strings@[j as int]@));
        }
        let len = strings[j].as_str().as_bytes().len();
        proof {
            assert(len == bs[j as int].len());
            assert(bs.take(j + 1).len() > 1);
        }
        if len < min_length {
            min_length = len;
        }
        j += 1;
    }
    proof {
        assert(bs.take(strings@.len() as int) =~= bs);
    }
    let first = strings[0].as_str();
    let b0 = first.as_bytes();
    let ghost first_view = first@;
    proof {
        assert(views(strings@)[0] == strings@[0]@);
        assert(first@ == strings@[0]@);
    }
    let mut index: usize = 0;
    while index < min_length
        invariant
            index <= min_length,
            min_length == min_len(bs),
            bs == byte_texts(views(strings@)),
            strings@.len() > 0,
            b0@ == bs[0],
            forall|k: int| 0 <= k < bs.len() ==> min_len(bs) <= (#[trigger] bs[k]).len(),
            agreement(bs, 0, min_len(bs)) == agreement(bs, index as nat, min_len(bs)),
            first@ == strings@[0]@,
        decreases min_length - index,
    {
        let character = b0[index];
        let mut k: usize = 0;
        let mut differs = false;
        while k < strings.len()
            invariant
                k <= strings@.len(),
                index < min_length,
                min_length == min_len(bs),
                bs == byte_texts(views(strings@)),
                b0@ == bs[0],
                character == bs[0][index as int],
                forall|m: int| 0 <= m < bs.len() ==> min_len(bs) <= (#[trigger] bs[m]).len(),
                !differs ==> forall|m: int| 0 <= m < k ==> (#[trigger] bs[m])[index as int] == character,
                differs ==> !all_agree_at(bs, index as int),
            decreases strings@.len() - k,
        {
            let other = strings[k].as_str().as_bytes();
            proof {
                assert(views(strings@)[k as int] == strings@[k as int]@);
                assert(bs[k as int] == encode_utf8(strings@[k as int]@));
                assert(min_len(bs) <= bs[k as int].len());
            }
            if other[index] != character {
                differs = true;
            }
            k += 1;
        }
        if differs {
            proof {
                assert(agreement(bs, index as nat, min_len(bs)) == index);
            }
            return index;
        }
        proof {
            assert(all_agree_at(bs, index as int));
            assert(agreement(bs, index as nat, min_len(bs)) == agreement(bs, (index + 1) as nat, min_len(bs)));
        }
        index += 1;
    }
    proof {
        assert(agreement(bs, index as nat, min_len(bs)) == min_len(bs));
        assert(common_byte_len(bs) == min_length);
    }
    min_length
}



/// Whether the longest common byte prefix of the texts ends on a character
/// boundary of the first one, so that their common folder can be taken.
pub fn common_prefix_on_boundary(strings: &Vec<String>) -> (b: bool)
    ensures
        b == gcp_defined(views(strings@)),
{
    if strings.len() == 0 {
        return true;
    }
    let n = common_byte_length(strings);
    proof {
        assert(views(strings@)[0] == strings@[0]@);
    }
    strings[0].as_str().is_char_boundary(n)
}

/// The folder that all the strings share.
pub fn greatest_common_prefix(strings: &Vec<String>) -> (r: String)
    requires
        gcp_defined(views(strings@)),
    ensures
        r@ == common_folder(views(strings@)),
{
    if strings.len() == 0 {
        return String::new();
    }
    let n = common_byte_length(strings);
    proof {
        assert(views(strings@)[0] == strings@[0]@);
    }
    let prefix = byte_prefix(strings[0].as_str(), n);
    whole_folder_prefix(prefix.as_str())
}

// ---------------------------------------------------------------------------
// Components by folder depth
// ---------------------------------------------------------------------------

/// A path text without the `\\?\` prefix of extended Windows paths.
pub open spec fn export_path(p: Seq<char>) -> Seq<char> {
    if p.len() >= 4 && p.take(4) == seq!['\\', '\\', '?', '\\'] {
        p.skip(4)
    } else {
        p
    }
}

/// The text of a root path as patterns name it.
pub fn normalized_export_path(path_text: &str) -> (r: String)
    ensures
        r@ == export_path(path_text@),
{
    let chars = chars_of(path_text);
    if chars.len() >= 4 && chars[0] == '\\' && chars[1] == '\\' && chars[2] == '?' && chars[3] == '\\' {
        let mut r: Vec<char> = Vec::new();
        let mut k: usize = 4;
        while k < chars.len()
            invariant
                4 <= k <= chars@.len(),
                r@ == chars@.subrange(4, k as int),
            decreases chars@.len() - k,
        {
            r.push(chars[k]);
            proof {
                assert(chars@.subrange(4, k + 1) =~= chars@.subrange(4, k as int).push(chars@[k as int]));
            }
            k += 1;
        }
        proof {
            assert(chars@.take(4) =~= seq!['\\', '\\', '?', '\\']);
            assert(r@ =~= chars@.skip(4));
        }
        string_of(r.as_slice())
    } else {
        proof {
            if chars@.len() >= 4 {
                assert(chars@.take(4)[0] == chars@[0]);
                assert(chars@.take(4)[1] == chars@[1]);
                assert(chars@.take(4)[2] == chars@[2]);
                assert(chars@.take(4)[3] == chars@[3]);
                if chars@.take(4) == seq!['\\', '\\', '?', '\\'] {
                    assert(seq!['\\', '\\', '?', '\\'][0] == '\\');
                    assert(seq!['\\', '\\', '?', '\\'][2] == '?');
                    assert(seq!['\\', '\\', '?', '\\'][3] == '\\');
                }
            }
        }
        path_text.to_owned()
    }
}

/// Every `//` written as `/`, left to right.
pub open spec fn single_slashes(s: Seq<char>) -> Seq<char>
    decreases s.len(),
{
    if s.len() < 2 {
        s
    } else if s[0] == '/' && s[1] == '/' {
        seq!['/'] + single_slashes(s.skip(2))
    } else {
        seq![s[0]] + single_slashes(s.skip(1))
    }
}

/// The pattern that selects the files under `path` below `root`.
pub open spec fn folder_pattern(root: Seq<char>, path: Seq<char>) -> Seq<char> {
    single_slashes(root + "/"@ + path + "/.*"@)
}

fn make_folder_pattern(root: &str, path: &str) -> (r: String)
    ensures
        r@ == folder_pattern(root@, path@),
{
    let mut text = String::new();
    crate::text::push_str(&mut text, root);
    crate::text::push_str(&mut text, "/");
    crate::text::push_str(&mut text, path);
    crate::text::push_str(&mut text, "/.*");
    let s = chars_of(text.as_str());
    let mut r: Vec<char> = Vec::new();
    let mut i: usize = 0;
    proof {
        assert(s@.skip(0) =~= s@);
    }
    while i < s.len()
        invariant
            i <= s@.len(),
            single_slashes(s@) =~= r@ + single_slashes(s@.skip(i as int)),
        decreases s@.len() - i,
    {
        let ghost rest = s@.skip(i as int);
        if i + 1 < s.len() && s[i] == '/' && s[i + 1] == '/' {
            r.push('/');
            proof {
                assert(rest.skip(2) =~= s@.skip(i + 2));
            }
            i += 2;
        } else {
            r.push(s[i]);
            proof {
                assert(rest.skip(1) =~= s@.skip(i + 1));
            }
            i += 1;
        }
    }
    proof {
        assert(s@.skip(i as int) =~= Seq::<char>::empty());
    }
    string_of(r.as_slice())
}

/// `other` starts with `path`.
pub open spec fn starts_with(other: Seq<char>, path: Seq<char>) -> bool {
    other.len() >= path.len() && other.take(path.len() as int) == path
}

fn starts_with_text(other: &str, path: &str) -> (b: bool)
    ensures
        b == starts_with(other@, path@),
{
    let o = chars_of(other);
    let p = chars_of(path);
    if o.len() < p.len() {
        return false;
    }
    let mut k: usize = 0;
    while k < p.len()
        invariant
            k <= p@.len() <= o@.len(),
            o@ == other@,
            p@ == path@,
            forall|m: int| 0 <= m < k ==> o@[m] == p@[m],
        decreases p@.len() - k,
    {
        if o[k] != p[k] {
            proof {
                assert(o@.take(p@.len() as int)[k as int] != p@[k as int]);
            }
            return false;
        }
        k += 1;
    }
    proof {
        assert(o@.take(p@.len() as int) =~= p@);
    }
    true
}

/// The folders among `paths` below `path` (other than `path` itself), in
/// order.
pub open spec fn nested_paths(paths: Seq<Seq<char>>, path: Seq<char>) -> Seq<Seq<char>>
    decreases paths.len(),
{
    if paths.len() == 0 {
        Seq::empty()
    } else {
        let prev = nested_paths(paths.drop_last(), path);
        let o = paths.last();
        if o != path && starts_with(o, path) {
            prev.push(o)
        } else {
            prev
        }
    }
}

/// The name of the component of folder `path`: relative to the common
/// folder `gcp` (unless it is that folder), `ROOT` when nothing is left.
pub open spec fn folder_component_name(path: Seq<char>, gcp: Seq<char>) -> Seq<char> {
    let name = if path == gcp {
        path
    } else if gcp.len() <= path.len() {
        path.skip(gcp.len() as int)
    } else {
        Seq::empty()
    };
    if name.len() == 0 {
        "ROOT"@
    } else {
        name
    }
}

/// `f` selects the files under `path`, or excepts them.
pub open spec fn folder_filter_of(f: SourceFileFilterConfig, root: Seq<char>, path: Seq<char>, exception: bool) -> bool {
    &&& f.path_pattern@ == folder_pattern(root, path)
    &&& f.content_pattern@.len() == 0
    &&& f.exception == exception
    &&& f.note@.len() == 0
}

/// `c` is the component of folder `path`: its files selected by folder,
/// those of the folders nested in it excepted.
pub open spec fn folder_component_of(
    c: NamedSourceCodeAspectConfig,
    root: Seq<char>,
    paths: Seq<Seq<char>>,
    path: Seq<char>,
) -> bool {
    let nested = nested_paths(paths, path);
    &&& c.name@ == folder_component_name(path, common_folder(paths))
    &&& c.files@.len() == 0
    &&& c.source_file_filters@.len() == nested.len() + 1
    &&& folder_filter_of(c.source_file_filters@[0], root, path, false)
    &&& forall|k: int|
        0 <= k < nested.len() ==> folder_filter_of(#[trigger] c.source_file_filters@[k + 1], root, nested[k], true)
}

/// The components of the folders at `depth` of the files in scope, one per
/// folder in order of first file, under the root text `root`.
pub fn components_based_on_folder_depth(
    root: &str,
    files: &Vec<FileRecord>,
    scope: &PathSet,
    depth: usize,
) -> (r: Vec<NamedSourceCodeAspectConfig>)
    requires
        scope.wf(),
        gcp_defined(component_paths(files@, *scope, depth as nat)),
    ensures
        r@.len() == component_paths(files@, *scope, depth as nat).len(),
        forall|k: int|
            0 <= k < r@.len() ==> folder_component_of(
                #[trigger] r@[k],
                root@,
                component_paths(files@, *scope, depth as nat),
                component_paths(files@, *scope, depth as nat)[k],
            ),
{
    let paths = unique_component_paths(files, scope, depth);
    let ghost ps = views(paths@);
    let common = greatest_common_prefix(&paths);
    let common_chars = chars_of(common.as_str());
    let mut r: Vec<NamedSourceCodeAspectConfig> = Vec::new();
    let mut k: usize = 0;
    while k < paths.len()
        invariant
            k <= paths@.len(),
            ps == views(paths@),
            common@ == common_folder(ps),
            common_chars@ == common@,
            r@.len() == k,
            forall|m: int| 0 <= m < k ==> folder_component_of(#[trigger] r@[m], root@, ps, ps[m]),
        decreases paths@.len() - k,
    {
        let path = &paths[k];
        proof {
            assert(ps[k as int] == path@);
        }
        let name = if str_eq(path.as_str(), common.as_str()) {
            path.clone()
        } else {
            let pc = chars_of(path.as_str());
            let mut rest: Vec<char> = Vec::new();
            if common_chars.len() <= pc.len() {
                let mut j: usize = common_chars.len();
                while j < pc.len()
                    invariant
                        common_chars@.len() <= j <= pc@.len(),
                        rest@ == pc@.subrange(common_chars@.len() as int, j as int),
                        pc@ == path@,
                    decreases pc@.len() - j,
                {
                    rest.push(pc[j]);
                    proof {
                        assert(pc@.subrange(common_chars@.len() as int, j + 1) =~= pc@.subrange(
                            common_chars@.len() as int,
                            j as int,
                        ).push(pc@[j as int]));
                    }
                    j += 1;
                }
                proof {
                    assert(rest@ =~= pc@.skip(common_chars@.len() as int));
                }
            }
            string_of(rest.as_slice())
        };
        let name = if name.as_str().as_bytes().len() == 0 {
            "ROOT".to_owned()
        } else {
            name
        };
        proof {
            if name@.len() == 0 {
                vstd::utf8::encode_utf8_decode_utf8(name@);
            }
        }
        let mut filters: Vec<SourceFileFilterConfig> = Vec::new();
        filters.push(
            SourceFileFilterConfig {
                path_pattern: make_folder_pattern(root, path.as_str()),
                content_pattern: String::new(),
                exception: false,
                note: String::new(),
            },
        );
        let mut o: usize = 0;
        while o < paths.len()
            invariant
                o <= paths@.len(),
                ps == views(paths@),
                k < paths@.len(),
                path@ == ps[k as int],
                filters@.len() == nested_paths(ps.take(o as int), path@).len() + 1,
                folder_filter_of(filters@[0], root@, path@, false),
                forall|m: int|
                    0 <= m < nested_paths(ps.take(o as int), path@).len() ==> folder_filter_of(
                        #[trigger] filters@[m + 1],
                        root@,
                        nested_paths(ps.take(o as int), path@)[m],
                        true,
                    ),
            decreases paths@.len() - o,
        {
            proof {
                assert(ps.take(o + 1).drop_last() =~= ps.take(o as int));
                assert(ps.take(o + 1).last() == paths@[o as int]@);
            }
            let other = &paths[o];
            if !str_eq(other.as_str(), path.as_str()) && starts_with_text(other.as_str(), path.as_str()) {
                filters.push(
                    SourceFileFilterConfig {
                        path_pattern: make_folder_pattern(root, other.as_str()),
                        content_pattern: String::new(),
                        exception: true,
                        note: String::new(),
                    },
                );
            }
            o += 1;
        }
        proof {
            assert(ps.take(paths@.len() as int) =~= ps);
        }
        r.push(NamedSourceCodeAspectConfig { name, source_file_filters: filters, files: Vec::new() });
        k += 1;
    }
    r
}

/// The depth at which folder components are taken: the first from `d` up
/// to the deepest searched whose number of components reaches `min`, or
/// the deepest.
pub open spec fn chosen_depth(files: Seq<FileRecord>, scope: PathSet, d: nat, min: nat) -> nat
    decreases MAX_COMPONENT_SEARCH_DEPTH - d,
{
    if d >= MAX_COMPONENT_SEARCH_DEPTH {
        d
    } else if component_paths(files, scope, d).len() >= min {
        d
    } else {
        chosen_depth(files, scope, d + 1, min)
    }
}

/// The depth the search starts from: at least 1.
pub open spec fn start_depth(depth: nat) -> nat {
    if depth >= 1 {
        depth
    } else {
        1
    }
}

/// Every depth the search visits has a defined common folder.
pub open spec fn search_defined(files: Seq<FileRecord>, scope: PathSet, depth: nat, min: nat) -> bool {
    start_depth(depth) <= MAX_COMPONENT_SEARCH_DEPTH ==> forall|d: nat|
        start_depth(depth) <= d <= chosen_depth(files, scope, start_depth(depth), min) ==> #[trigger] gcp_defined(
            component_paths(files, scope, d),
        )
}

proof fn lemma_chosen_depth(files: Seq<FileRecord>, scope: PathSet, d: nat, min: nat)
    requires
        d <= MAX_COMPONENT_SEARCH_DEPTH,
    ensures
        d <= chosen_depth(files, scope, d, min) <= MAX_COMPONENT_SEARCH_DEPTH,
    decreases MAX_COMPONENT_SEARCH_DEPTH - d,
{
    if d < MAX_COMPONENT_SEARCH_DEPTH && component_paths(files, scope, d).len() < min {
        lemma_chosen_depth(files, scope, d + 1, min);
    }
}

/// Components from folders: at the first depth from `depth` (at least 1) up
/// to the deepest searched that gives at least `min_component_count`
/// components, or at the deepest; none when `depth` is beyond it.
pub fn generate_folder_depth_components(
    root: &str,
    files: &Vec<FileRecord>,
    scope: &PathSet,
    depth: usize,
    min_component_count: usize,
) -> (r: Vec<NamedSourceCodeAspectConfig>)
    requires
        scope.wf(),
        search_defined(files@, *scope, depth as nat, min_component_count as nat),
    ensures
        start_depth(depth as nat) > MAX_COMPONENT_SEARCH_DEPTH ==> r@.len() == 0,
        start_depth(depth as nat) <= MAX_COMPONENT_SEARCH_DEPTH ==> {
            let d = chosen_depth(files@, *scope, start_depth(depth as nat), min_component_count as nat);
            &&& r@.len() == component_paths(files@, *scope, d).len()
            &&& forall|k: int|
                0 <= k < r@.len() ==> folder_component_of(
                    #[trigger] r@[k],
                    root@,
                    component_paths(files@, *scope, d),
                    component_paths(files@, *scope, d)[k],
                )
        },
{
    let mut components: Vec<NamedSourceCodeAspectConfig> = Vec::new();
    let mut current: usize = if depth >= 1 {
        depth
    } else {
        1
    };
    if current > MAX_COMPONENT_SEARCH_DEPTH {
        return components;
    }
    let ghost start = start_depth(depth as nat);
    proof {
        lemma_chosen_depth(files@, *scope, start, min_component_count as nat);
    }
    loop
        invariant
            start <= current <= MAX_COMPONENT_SEARCH_DEPTH,
            start == start_depth(depth as nat),
            scope.wf(),
            search_defined(files@, *scope, depth as nat, min_component_count as nat),
            chosen_depth(files@, *scope, start, min_component_count as nat) == chosen_depth(
                files@,
                *scope,
                current as nat,
                min_component_count as nat,
            ),
            current <= chosen_depth(files@, *scope, start, min_component_count as nat),
        decreases MAX_COMPONENT_SEARCH_DEPTH - current,
    {
        proof {
            assert(gcp_defined(component_paths(files@, *scope, current as nat)));
        }
        components = components_based_on_folder_depth(root, files, scope, current);
        if components.len() >= min_component_count || current == MAX_COMPONENT_SEARCH_DEPTH {
            return components;
        }
        proof {
            lemma_chosen_depth(files@, *scope, (current + 1) as nat, min_component_count as nat);
        }
        current += 1;
    }
}

/// Whether every depth the folder search visits has a defined common
/// folder.
pub fn folder_search_ok(files: &Vec<FileRecord>, scope: &PathSet, depth: usize, min_component_count: usize) -> (b:
    bool)
    requires
        scope.wf(),
    ensures
        b == search_defined(files@, *scope, depth as nat, min_component_count as nat),
{
    let mut current: usize = if depth >= 1 {
        depth
    } else {
        1
    };
    if current > MAX_COMPONENT_SEARCH_DEPTH {
        return true;
    }
    let ghost start = start_depth(depth as nat);
    let ghost min = min_component_count as nat;
    proof {
        lemma_chosen_depth(files@, *scope, start, min);
    }
    loop
        invariant
            start <= current <= MAX_COMPONENT_SEARCH_DEPTH,
            start == start_depth(depth as nat),
            min == min_component_count as nat,
            scope.wf(),
            chosen_depth(files@, *scope, start, min) == chosen_depth(files@, *scope, current as nat, min),
            current <= chosen_depth(files@, *scope, start, min),
            forall|d: nat| start <= d < current ==> #[trigger] gcp_defined(component_paths(files@, *scope, d)),
        decreases MAX_COMPONENT_SEARCH_DEPTH - current,
    {
        let paths = unique_component_paths(files, scope, current);
        if !common_prefix_on_boundary(&paths) {
            return false;
        }
        if paths.len() >= min_component_count || current == MAX_COMPONENT_SEARCH_DEPTH {
            proof {
                assert(views(paths@).len() == paths@.len());
                assert(chosen_depth(files@, *scope, current as nat, min) == current);
                assert forall|d: nat|
                    start <= d <= chosen_depth(files@, *scope, start, min) implies #[trigger] gcp_defined(
                    component_paths(files@, *scope, d),
                ) by {
                    if d == current {
                    }
                }
            }
            return true;
        }
        proof {
            assert(views(paths@).len() == paths@.len());
            lemma_chosen_depth(files@, *scope, (current + 1) as nat, min);
        }
        current += 1;
    }
}

} // verus!
