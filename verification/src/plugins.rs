use vstd::prelude::*;
use vstd::std_specs::hash::DefaultHasherAdditionalSpecFns;

verus! {

use std::collections::hash_map::DefaultHasher;
use std::hash::Hasher;
use vstd::utf8::encode_utf8;

/// The numeric id of a plugin, derived from the UTF-8 bytes of its
/// filesystem path by the standard library's default hasher.
pub open spec fn path_hash_of(path: Seq<char>) -> u64 {
    DefaultHasher::spec_finish(seq![encode_utf8(path)])
}

/// Stable numeric id for a plugin: the hash of its path's bytes.
pub fn get_path_hash(path: &String) -> (r: u64)
    ensures
        r == path_hash_of(path@),
{
    let mut hasher = DefaultHasher::new();
    hasher.write(path.as_str().as_bytes());
    hasher.finish()
}

/// A character folded to lower case, as far as plain letters go.
pub open spec fn lower_u32(c: char) -> u32 {
    if 65 <= c as u32 && c as u32 <= 90 {
        (c as u32 + 32) as u32
    } else {
        c as u32
    }
}

/// Character sequences equal up to letter case.
pub open spec fn eqi_seq(a: Seq<char>, b: Seq<char>) -> bool {
    a.len() == b.len() && forall|i: int| 0 <= i < a.len() ==> lower_u32(a[i]) == lower_u32(b[i])
}

/// Whether the file name carries the extension (preceded by a dot, with a
/// non-empty stem, compared without regard to letter case).
pub open spec fn has_ext(name: Seq<char>, ext: Seq<char>) -> bool {
    &&& name.len() > ext.len() + 1
    &&& name[name.len() - ext.len() - 1] == '.'
    &&& eqi_seq(name.subrange(name.len() - ext.len(), name.len() as int), ext)
}

/// Whether the file name names a plugin: the two plugin extensions always,
/// and the two addon extensions when asked for.
pub open spec fn is_plugin_name(name: Seq<char>, use_addons: bool) -> bool {
    ||| has_ext(name, "esp"@)
    ||| has_ext(name, "esm"@)
    ||| (use_addons && (has_ext(name, "omwaddon"@) || has_ext(name, "omwscripts"@)))
}

fn char_eqi(a: char, b: char) -> (r: bool)
    ensures
        r == (lower_u32(a) == lower_u32(b)),
{
    let au = a as u32;
    let bu = b as u32;
    let al: u32 = if 65 <= au && au <= 90 {
        au + 32
    } else {
        au
    };
    let bl: u32 = if 65 <= bu && bu <= 90 {
        bu + 32
    } else {
        bu
    };
    al == bl
}

/// Whether the file name carries the extension, regardless of letter case.
pub fn name_has_ext(name: &str, ext: &str) -> (r: bool)
    ensures
        r == has_ext(name@, ext@),
{
    let nl = name.unicode_len();
    let el = ext.unicode_len();
    if nl <= el {
        return false;
    }
    let stem = nl - el;
    if stem < 2 {
        return false;
    }
    if name.get_char(stem - 1) != '.' {
        return false;
    }
    let mut i: usize = 0;
    while i < el
        invariant
            nl as nat == name@.len(),
            el as nat == ext@.len(),
            stem == nl - el,
            stem >= 2,
            i <= el,
            forall|j: int|
                0 <= j < i ==> lower_u32(name@[stem + j]) == lower_u32(ext@[j]),
        decreases el - i,
    {
        if !char_eqi(name.get_char(stem + i), ext.get_char(i)) {
            proof {
                assert(name@.subrange(stem as int, nl as int)[i as int] == name@[stem + i]);
            }
            return false;
        }
        i = i + 1;
    }
    proof {
        assert forall|j: int| 0 <= j < el implies lower_u32(
            name@.subrange(stem as int, nl as int)[j],
        ) == lower_u32(ext@[j]) by {
            assert(name@.subrange(stem as int, nl as int)[j] == name@[stem + j]);
        }
    }
    true
}

/// Whether a directory entry belongs to the plugin scan.
pub fn is_plugin_file(name: &str, use_addons: bool) -> (r: bool)
    ensures
        r == is_plugin_name(name@, use_addons),
{
    if name_has_ext(name, "esp") {
        return true;
    }
    if name_has_ext(name, "esm") {
        return true;
    }
    if use_addons {
        if name_has_ext(name, "omwaddon") {
            return true;
        }
        if name_has_ext(name, "omwscripts") {
            return true;
        }
    }
    false
}

/// Whether a raw byte buffer can be a binary plugin file: it must open
/// with the header record's tag, whose first byte is the letter T. Any
/// other first byte is guaranteed to be invalid input.
pub fn looks_like_plugin(raw: &Vec<u8>) -> (r: bool)
    ensures
        r == (raw@.len() > 0 && raw@[0] == 84),
{
    raw.len() > 0 && raw[0] == 84u8
}

/// One discovered plugin file: its path, its stable id, whether it takes
/// part in the next rebuild, and its load-order rank.
#[derive(Debug)]
pub struct PluginHandle {
    pub id: u64,
    pub path: String,
    pub enabled: bool,
    pub load_order_rank: usize,
}

#[verifier::ext_equal]
pub ghost struct PluginHandleV {
    pub id: u64,
    pub path: Seq<char>,
    pub enabled: bool,
    pub load_order_rank: usize,
}

impl DeepView for PluginHandle {
    type V = PluginHandleV;

    open spec fn deep_view(&self) -> PluginHandleV {
        PluginHandleV {
            id: self.id,
            path: self.path@,
            enabled: self.enabled,
            load_order_rank: self.load_order_rank,
        }
    }
}

/// The ordered collection of discovered plugins; the rank of each handle
/// is its position, which the caller fixed by sorting the directory
/// listing by modification time before handing it over.
pub struct PluginSet {
    handles: Vec<PluginHandle>,
}

impl PluginSet {
    pub closed spec fn handle_seq(&self) -> Seq<PluginHandleV> {
        self.handles.deep_view()
    }

    pub open spec fn wf(&self) -> bool {
        forall|i: int|
            0 <= i < self.handle_seq().len() ==> (#[trigger] self.handle_seq()[i]).load_order_rank
                == i
    }

    /// Builds the set from paths already sorted ascending by modification
    /// time: each path's rank is its position, its id the path hash, and
    /// every handle starts disabled.
    pub fn from_sorted_paths(paths: &Vec<String>) -> (r: PluginSet)
        ensures
            r.wf(),
            r.handle_seq().len() == paths@.len(),
            forall|i: int|
                0 <= i < paths@.len() ==> (#[trigger] r.handle_seq()[i]) == (PluginHandleV {
                    id: path_hash_of(paths.deep_view()[i]),
                    path: paths.deep_view()[i],
                    enabled: false,
                    load_order_rank: i as usize,
                }),
    {
        let mut handles: Vec<PluginHandle> = Vec::new();
        let n = paths.len();
        let mut i: usize = 0;
        while i < n
            invariant
                n == paths@.len(),
                i <= n,
                handles@.len() == i,
                forall|j: int|
                    0 <= j < i ==> (#[trigger] handles.deep_view()[j]) == (PluginHandleV {
                        id: path_hash_of(paths.deep_view()[j]),
                        path: paths.deep_view()[j],
                        enabled: false,
                        load_order_rank: j as usize,
                    }),
            decreases n - i,
        {
            let ghost pre = handles.deep_view();
            let path = &paths[i];
            let id = get_path_hash(path);
            handles.push(
                PluginHandle { id, path: path.clone(), enabled: false, load_order_rank: i },
            );
            proof {
                assert(handles.deep_view() =~= pre.push(
                    PluginHandleV {
                        id: path_hash_of(paths.deep_view()[i as int]),
                        path: paths.deep_view()[i as int],
                        enabled: false,
                        load_order_rank: i,
                    },
                ));
            }
            i = i + 1;
        }
        PluginSet { handles }
    }

    pub fn len(&self) -> (r: usize)
        ensures
            r as nat == self.handle_seq().len(),
    {
        self.handles.len()
    }

    pub fn handle_at(&self, i: usize) -> (r: &PluginHandle)
        requires
            (i as nat) < self.handle_seq().len(),
        ensures
            r.deep_view() == self.handle_seq()[i as int],
    {
        &self.handles[i]
    }

    /// Pure state flip: every handle carrying the id takes the new enabled
    /// flag; nothing else changes, and no loaded data is touched until the
    /// next rebuild.
    pub fn toggle(&mut self, id: u64, enabled: bool)
        ensures
            final(self).handle_seq().len() == old(self).handle_seq().len(),
            forall|i: int|
                0 <= i < old(self).handle_seq().len() ==> (#[trigger] final(self).handle_seq()[i])
                    == (if old(self).handle_seq()[i].id == id {
                    PluginHandleV { enabled, ..old(self).handle_seq()[i] }
                } else {
                    old(self).handle_seq()[i]
                }),
            old(self).wf() ==> final(self).wf(),
    {
        let n = self.handles.len();
        let mut i: usize = 0;
        while i < n
            invariant
                n == self.handles@.len(),
                i <= n,
                self.handles@.len() == old(self).handles@.len(),
                forall|j: int|
                    i <= j < n ==> (#[trigger] self.handles.deep_view()[j]) == old(
                        self,
                    ).handles.deep_view()[j],
                forall|j: int|
                    0 <= j < i ==> (#[trigger] self.handles.deep_view()[j]) == (if old(
                        self,
                    ).handles.deep_view()[j].id == id {
                        PluginHandleV { enabled, ..old(self).handles.deep_view()[j] }
                    } else {
                        old(self).handles.deep_view()[j]
                    }),
            decreases n - i,
        {
            let ghost pre = self.handles.deep_view();
            if self.handles[i].id == id {
                let rank = self.handles[i].load_order_rank;
                let hid = self.handles[i].id;
                let path = self.handles[i].path.clone();
                self.handles[i] =
                PluginHandle { id: hid, path, enabled, load_order_rank: rank };
                proof {
                    assert(self.handles.deep_view() =~= pre.update(
                        i as int,
                        PluginHandleV { enabled, ..pre[i as int] },
                    ));
                }
            }
            i = i + 1;
        }
    }
}

/// Notes a freshly opened path in the recents list, exactly as the editor
/// keeps it: appended when absent, never duplicated, capped at ten entries
/// by dropping the oldest.
pub fn note_recent(recents: &mut Vec<String>, path: &String)
    ensures
        final(recents).deep_view() == if old(recents).deep_view().contains(path@) {
            old(recents).deep_view()
        } else if old(recents)@.len() < 10 {
            old(recents).deep_view().push(path@)
        } else {
            old(recents).deep_view().push(path@).drop_first()
        },
{
    let mut i: usize = 0;
    let n = recents.len();
    while i < n
        invariant
            n == recents@.len(),
            i <= n,
            *recents == *old(recents),
            forall|j: int| 0 <= j < i ==> recents.deep_view()[j] != path@,
        decreases n - i,
    {
        if recents[i] == *path {
            proof {
                assert(recents.deep_view()[i as int] == path@);
            }
            return ;
        }
        i = i + 1;
    }
    recents.push(path.clone());
    proof {
        assert(recents.deep_view() =~= old(recents).deep_view().push(path@));
    }
    if recents.len() > 10 {
        recents.remove(0);
        proof {
            assert(recents.deep_view() =~= old(recents).deep_view().push(path@).drop_first());
        }
    }
}

} // verus!
