//! What the resource manager decides without touching a file or a device:
//! where a texture goes in the table, and how a sound file is decoded.

use vstd::prelude::*;
use vstd::string::StringSliceAdditionalSpecFns;

verus! {

/// The table of textures: a list that only grows, and the names under
/// which its entries are found. `T` is what the application keeps for a
/// texture.
pub struct TextureTable<T> {
    textures: Vec<T>,
    texture_map: Vec<(String, usize)>,
}

/// The table as mathematical values.
pub struct TableModel<T> {
    pub textures: Seq<T>,
    /// The place in `textures` that each name stands for.
    pub names: Map<Seq<char>, usize>,
}

/// The names that a list of entries gives, where a later entry takes the
/// place of an earlier one of the same name.
pub open spec fn names_of(entries: Seq<(String, usize)>) -> Map<Seq<char>, usize>
    decreases entries.len(),
{
    if entries.len() == 0 {
        Map::empty()
    } else {
        names_of(entries.drop_last()).insert(entries.last().0@, entries.last().1)
    }
}

impl<T> View for TextureTable<T> {
    type V = TableModel<T>;

    closed spec fn view(&self) -> TableModel<T> {
        TableModel { textures: self.textures@, names: names_of(self.texture_map@) }
    }
}

impl<T> TableModel<T> {
    /// Every name stands for a place that the list has.
    pub open spec fn wf(self) -> bool {
        forall|name: Seq<char>| #[trigger]
            self.names.dom().contains(name) ==> self.names[name] < self.textures.len()
    }
}

/// The names of entries that all point below `len` point below `len`.
proof fn lemma_names_in_range(entries: Seq<(String, usize)>, len: nat)
    requires
        forall|i: int| 0 <= i < entries.len() ==> (#[trigger] entries[i]).1 < len,
    ensures
        forall|name: Seq<char>| #[trigger]
            names_of(entries).dom().contains(name) ==> names_of(entries)[name] < len,
    decreases entries.len(),
{
    if entries.len() > 0 {
        let before = entries.drop_last();
        assert forall|i: int| 0 <= i < before.len() implies (#[trigger] before[i]).1 < len by {
            assert(before[i] == entries[i]);
        }
        lemma_names_in_range(before, len);
        let last = entries.last();
        assert(last == entries[entries.len() - 1]);
        assert forall|name: Seq<char>| #[trigger]
            names_of(entries).dom().contains(name) implies names_of(entries)[name] < len by {
            if name != last.0@ {
                assert(names_of(before).dom().contains(name));
            }
        }
    }
}

impl<T> TextureTable<T> {
    /// Every entry of the names gives a place that the list has.
    #[verifier::type_invariant]
    closed spec fn places_exist(&self) -> bool {
        forall|i: int|
            0 <= i < self.texture_map@.len() ==> (#[trigger] self.texture_map@[i]).1
                < self.textures@.len()
    }

    /// A table without textures.
    pub fn new() -> (r: Self)
        ensures
            r@.wf(),
            r@.textures == Seq::<T>::empty(),
            r@.names == Map::<Seq<char>, usize>::empty(),
    {
        TextureTable { textures: Vec::new(), texture_map: Vec::new() }
    }

    /// The number of textures.
    pub fn len(&self) -> (r: usize)
        ensures
            r == self@.textures.len(),
    {
        self.textures.len()
    }

    /// Puts `texture` at the end of the list and lets `name` stand for it
    /// from now on. Returns its place.
    pub fn insert(&mut self, name: String, texture: T) -> (r: usize)
        ensures
            final(self)@.wf(),
            r == old(self)@.textures.len(),
            final(self)@.textures == old(self)@.textures.push(texture),
            final(self)@.names == old(self)@.names.insert(name@, r),
    {
        proof {
            use_type_invariant(&*self);
        }
        let ghost before = self.texture_map@;
        // Both lists are taken out while they grow, the names first, and
        // put back the other way round: the table is whole at every point.
        let mut names: Vec<(String, usize)> = Vec::new();
        core::mem::swap(&mut names, &mut self.texture_map);
        let mut textures: Vec<T> = Vec::new();
        core::mem::swap(&mut textures, &mut self.textures);
        let idx = textures.len();
        textures.push(texture);
        names.push((name, idx));
        self.textures = textures;
        self.texture_map = names;
        assert(self.texture_map@.drop_last() =~= before);
        proof {
            lemma_names_in_range(self.texture_map@, self.textures@.len());
        }
        idx
    }

    /// The place of the texture that `name` stands for.
    pub fn find(&self, name: &String) -> (r: Option<usize>)
        ensures
            self@.wf(),
            r == (if self@.names.dom().contains(name@) {
                Some(self@.names[name@])
            } else {
                None
            }),
    {
        proof {
            use_type_invariant(self);
            lemma_names_in_range(self.texture_map@, self.textures@.len());
        }
        let ghost all = self.texture_map@;
        let mut i: usize = self.texture_map.len();
        assert(all.take(i as int) =~= all);
        while i > 0
            invariant
                i <= all.len(),
                all == self.texture_map@,
                self@.wf(),
                names_of(all).dom().contains(name@) == names_of(all.take(i as int)).dom().contains(
                    name@,
                ),
                names_of(all).dom().contains(name@) ==> names_of(all)[name@] == names_of(
                    all.take(i as int),
                )[name@],
            decreases i,
        {
            proof {
                let upto = all.take(i as int);
                assert(upto.drop_last() =~= all.take(i - 1));
                assert(upto.last() == all[i - 1]);
            }
            i -= 1;
            if self.texture_map[i].0 == *name {
                return Some(self.texture_map[i].1);
            }
        }
        assert(all.take(0) =~= Seq::<(String, usize)>::empty());
        None
    }

    /// The texture at `index`.
    pub fn get(&self, index: usize) -> (r: Option<&T>)
        ensures
            match r {
                Some(texture) => index < self@.textures.len() && *texture == self@.textures[
                    index as int
                ],
                None => index >= self@.textures.len(),
            },
    {
        if index < self.textures.len() {
            Some(&self.textures[index])
        } else {
            None
        }
    }
}

/// How a sound file is decoded.
#[derive(Debug, Copy, Clone, PartialEq, Eq, Structural)]
pub enum SoundFormat {
    Mp3,
    Ogg,
}

/// The bytes of `mp3`.
pub open spec fn mp3() -> Seq<u8> {
    seq![0x6du8, 0x70u8, 0x33u8]
}

/// The byte at `at` is the last dot of `path`.
pub open spec fn is_last_dot(path: Seq<u8>, at: int) -> bool {
    &&& 0 <= at < path.len()
    &&& path[at] == 0x2e
    &&& forall|j: int| at < j < path.len() ==> path[j] != 0x2e
}

/// What follows the last dot of `path`; all of `path` where it has no dot.
pub open spec fn extension(path: Seq<u8>) -> Seq<u8> {
    if exists|at: int| is_last_dot(path, at) {
        path.skip((choose|at: int| is_last_dot(path, at)) + 1)
    } else {
        path
    }
}

/// The format of the sound file at `path`, by its extension: `mp3` is
/// decoded as MP3, everything else as Ogg Vorbis.
pub open spec fn spec_sound_format(path: Seq<u8>) -> SoundFormat {
    if extension(path) == mp3() {
        SoundFormat::Mp3
    } else {
        SoundFormat::Ogg
    }
}

/// A path has at most one last dot.
proof fn lemma_last_dot_unique(path: Seq<u8>, at: int)
    requires
        is_last_dot(path, at),
    ensures
        extension(path) == path.skip(at + 1),
{
    let other = choose|at: int| is_last_dot(path, at);
    assert(is_last_dot(path, other));
    if other < at {
        assert(path[at] != 0x2e);
    } else if at < other {
        assert(path[other] != 0x2e);
    }
}

/// The format of the sound file at `file_path`.
pub fn sound_format(file_path: &str) -> (r: SoundFormat)
    ensures
        r == spec_sound_format(file_path.spec_bytes()),
{
    let path = file_path.as_bytes();
    let mut start: usize = path.len();
    while start > 0 && path[start - 1] != 0x2e
        invariant
            start <= path@.len(),
            forall|j: int| start <= j < path@.len() ==> path@[j] != 0x2e,
        decreases start,
    {
        start -= 1;
    }
    proof {
        if start > 0 {
            lemma_last_dot_unique(path@, start - 1);
        } else {
            assert(!exists|at: int| is_last_dot(path@, at));
            assert(path@.skip(0) =~= path@);
        }
    }
    let ghost ext = path@.skip(start as int);
    assert(ext == extension(path@));
    if path.len() - start != 3 {
        return SoundFormat::Ogg;
    }
    if path[start] == 0x6d && path[start + 1] == 0x70 && path[start + 2] == 0x33 {
        assert(ext =~= mp3());
        SoundFormat::Mp3
    } else {
        assert(ext[0] == path@[start as int] && ext[1] == path@[start + 1] && ext[2] == path@[start
            + 2]);
        SoundFormat::Ogg
    }
}

/// How the samples of a sound lie in its buffer.
#[derive(Debug, Copy, Clone, PartialEq, Eq, Structural)]
pub enum SoundLayout {
    Mono,
    Stereo,
}

/// The layout of a sound with the given number of channels: one channel is
/// mono, everything else is taken as stereo.
pub fn sound_layout(channels: usize) -> (r: SoundLayout)
    ensures
        r == (if channels == 1 {
            SoundLayout::Mono
        } else {
            SoundLayout::Stereo
        }),
{
    if channels == 1 {
        SoundLayout::Mono
    } else {
        SoundLayout::Stereo
    }
}

} // verus!
