//! An image held in memory as a whole: its volume descriptor and the tree of
//! its directories and files, and the builder that makes an empty one.

use crate::directory::{
    deep_wf, directory_at, dotdot, file_at, lemma_directory_at, lemma_file_at, lookup_directory,
    lookup_file, Directory,
};
use crate::error::Error;
use crate::spec::cd001;
use crate::directory::{read_tree, written_to_iso, EntryModel, MAX_READ_DEPTH};
use crate::bytes::zeros;
use crate::file::now_seconds;
use crate::volume::{parsed, sector_of, PrimaryVolumeDescriptor, VolumeDescriptor, SCANNED_SECTORS};
use crate::directory::entry_record_size;
use crate::writer::fs::{components, names, split_path, str_eq};
use crate::writer::sector::{overlay, write_at};
use crate::serialize::IsoSerialize;
use crate::spec::VolumeDescriptorSetTerminator;
use crate::writer::layout::push_zeros;
use vstd::prelude::*;
use vstd::string::StrSliceExecFns;

verus! {

/// How many components a path may have.
pub const MAX_PATH_DEPTH: usize = 8;

/// How many characters the name of a file may have before its dot, at the
/// first level of interchange.
pub const MAX_FILENAME_LENGTH_LEVEL_1: usize = 8;

/// How many characters the name of a file may have after its dot, at the
/// first level of interchange.
pub const MAX_EXTENSION_LENGTH_LEVEL_1: usize = 3;

/// The extensions of an image.
#[derive(Debug, Clone, Copy, PartialEq, Eq)]
pub struct IsoExtensions {
    /// Long names in Unicode.
    pub joliet: bool,
    /// What POSIX knows of a file.
    pub rock_ridge: bool,
    /// Booting from the disc.
    pub el_torito: bool,
    /// A UDF bridge.
    pub udf: bool,
}

impl IsoExtensions {
    /// No extension at all.
    pub fn none() -> (r: Self)
        ensures
            r == (IsoExtensions { joliet: false, rock_ridge: false, el_torito: false, udf: false }),
    {
        IsoExtensions { joliet: false, rock_ridge: false, el_torito: false, udf: false }
    }
}

/// Collects what an empty image needs.
#[derive(Debug, Clone, PartialEq, Eq)]
pub struct IsoBuilder {
    volume_id: String,
    publisher: String,
    preparer: String,
    application: String,
    extensions: IsoExtensions,
}

/// What a builder holds.
pub struct BuilderModel {
    pub volume_id: Seq<char>,
    pub publisher: Seq<char>,
    pub preparer: Seq<char>,
    pub application: Seq<char>,
    pub extensions: IsoExtensions,
}

impl IsoBuilder {
    /// What the builder holds.
    pub closed spec fn model(&self) -> BuilderModel {
        BuilderModel {
            volume_id: self.volume_id@,
            publisher: self.publisher@,
            preparer: self.preparer@,
            application: self.application@,
            extensions: self.extensions,
        }
    }

    /// A builder for a volume called `ISO_VOLUME`, prepared by `isopod`,
    /// without a publisher and without extensions.
    pub fn new() -> (r: Self)
        ensures
            r.model().volume_id == "ISO_VOLUME"@,
            r.model().publisher == ""@,
            r.model().preparer == "isopod"@,
            r.model().application == "isopod 0.1.0"@,
            r.model().extensions == (IsoExtensions {
                joliet: false,
                rock_ridge: false,
                el_torito: false,
                udf: false,
            }),
    {
        IsoBuilder {
            volume_id: "ISO_VOLUME".to_owned(),
            publisher: "".to_owned(),
            preparer: "isopod".to_owned(),
            application: "isopod 0.1.0".to_owned(),
            extensions: IsoExtensions::none(),
        }
    }

    pub fn volume_id(self, volume_id: &str) -> (r: Self)
        ensures
            r.model() == (BuilderModel { volume_id: volume_id@, ..self.model() }),
    {
        IsoBuilder { volume_id: volume_id.to_owned(), ..self }
    }

    pub fn publisher(self, publisher: &str) -> (r: Self)
        ensures
            r.model() == (BuilderModel { publisher: publisher@, ..self.model() }),
    {
        IsoBuilder { publisher: publisher.to_owned(), ..self }
    }

    pub fn preparer(self, preparer: &str) -> (r: Self)
        ensures
            r.model() == (BuilderModel { preparer: preparer@, ..self.model() }),
    {
        IsoBuilder { preparer: preparer.to_owned(), ..self }
    }

    pub fn application(self, application: &str) -> (r: Self)
        ensures
            r.model() == (BuilderModel { application: application@, ..self.model() }),
    {
        IsoBuilder { application: application.to_owned(), ..self }
    }

    pub fn joliet(self, enable: bool) -> (r: Self)
        ensures
            r.model() == (BuilderModel {
                extensions: IsoExtensions { joliet: enable, ..self.model().extensions },
                ..self.model()
            }),
    {
        let extensions = IsoExtensions { joliet: enable, ..self.extensions };
        IsoBuilder { extensions, ..self }
    }

    pub fn rock_ridge(self, enable: bool) -> (r: Self)
        ensures
            r.model() == (BuilderModel {
                extensions: IsoExtensions { rock_ridge: enable, ..self.model().extensions },
                ..self.model()
            }),
    {
        let extensions = IsoExtensions { rock_ridge: enable, ..self.extensions };
        IsoBuilder { extensions, ..self }
    }

    pub fn el_torito(self, enable: bool) -> (r: Self)
        ensures
            r.model() == (BuilderModel {
                extensions: IsoExtensions { el_torito: enable, ..self.model().extensions },
                ..self.model()
            }),
    {
        let extensions = IsoExtensions { el_torito: enable, ..self.extensions };
        IsoBuilder { extensions, ..self }
    }

    pub fn udf(self, enable: bool) -> (r: Self)
        ensures
            r.model() == (BuilderModel {
                extensions: IsoExtensions { udf: enable, ..self.model().extensions },
                ..self.model()
            }),
    {
        let extensions = IsoExtensions { udf: enable, ..self.extensions };
        IsoBuilder { extensions, ..self }
    }

    /// Makes the image: an empty root directory called `ROOT`, and a volume
    /// descriptor with the names of the builder.
    pub fn build(self) -> (r: Result<Iso, Error>)
        ensures
            r is Ok,
            r->Ok_0.wf(),
            r->Ok_0.spec_is_modified(),
            r->Ok_0.spec_extensions() == self.model().extensions,
            r->Ok_0.spec_volume_descriptor().model().volume_id == self.model().volume_id,
            r->Ok_0.spec_volume_descriptor().model().publisher_id == self.model().publisher,
            r->Ok_0.spec_volume_descriptor().model().preparer_id == self.model().preparer,
            r->Ok_0.spec_volume_descriptor().model().application_id == self.model().application,
            r->Ok_0.spec_root_directory().spec_name() == "ROOT"@,
            r->Ok_0.spec_root_directory().spec_directories().len() == 0,
            r->Ok_0.spec_root_directory().spec_files().len() == 0,
    {
        let root_directory = Directory::new("ROOT");
        let volume_descriptor = PrimaryVolumeDescriptor::new(
            self.volume_id.as_str(),
            self.publisher.as_str(),
            self.preparer.as_str(),
            self.application.as_str(),
            &root_directory,
        );
        Ok(Iso { volume_descriptor, root_directory, modified: true, extensions: self.extensions })
    }
}

/// An image held in memory.
#[derive(Debug, PartialEq, Eq)]
pub struct Iso {
    volume_descriptor: PrimaryVolumeDescriptor,
    root_directory: Directory,
    modified: bool,
    extensions: IsoExtensions,
}

/// Whether `c` is a letter or a digit of ASCII, an underscore or a dot.
pub open spec fn is_name_char(c: char) -> bool {
    let v = c as u32;
    (48 <= v <= 57) || (65 <= v <= 90) || (97 <= v <= 122) || v == 95 || v == 46
}

/// Where the first dot of `name` stands, or its length where it has none.
pub open spec fn first_dot(name: Seq<char>) -> int
    decreases name.len(),
{
    if name.len() == 0 {
        0
    } else {
        let before = first_dot(name.drop_last());
        if before < name.len() - 1 {
            before
        } else if name.last() == '.' {
            name.len() - 1
        } else {
            name.len() as int
        }
    }
}

/// Whether `name` is a name of the first level of interchange: at most
/// eight characters before its first dot and at most three after it, all of
/// them letters or digits of ASCII, underscores or dots.
pub open spec fn is_level_1(name: Seq<char>) -> bool {
    &&& first_dot(name) <= MAX_FILENAME_LENGTH_LEVEL_1
    &&& name.len() - first_dot(name) - 1 <= MAX_EXTENSION_LENGTH_LEVEL_1
    &&& forall|i: int| 0 <= i < name.len() ==> is_name_char(#[trigger] name[i])
}

/// Whether a path can stand in an image with these extensions: it has at
/// most eight components, and without Joliet and Rock Ridge each of them, but
/// for `..`, is a name of the first level of interchange.
pub open spec fn is_valid_path(path: Seq<char>, extensions: IsoExtensions) -> bool {
    let parts = components(path);
    &&& parts.len() <= MAX_PATH_DEPTH
    &&& (extensions.joliet || extensions.rock_ridge || forall|k: int|
        0 <= k < parts.len() ==> (#[trigger] parts[k]) == dotdot() || is_level_1(parts[k]))
}

fn name_char(c: char) -> (r: bool)
    ensures
        r == is_name_char(c),
{
    let v = c as u32;
    (48 <= v && v <= 57) || (65 <= v && v <= 90) || (97 <= v && v <= 122) || v == 95 || v == 46
}

proof fn lemma_first_dot(name: Seq<char>)
    ensures
        0 <= first_dot(name) <= name.len(),
        forall|i: int| 0 <= i < first_dot(name) ==> (#[trigger] name[i]) != '.',
        first_dot(name) < name.len() ==> name[first_dot(name)] == '.',
    decreases name.len(),
{
    if name.len() > 0 {
        let init = name.drop_last();
        lemma_first_dot(init);
        assert(forall|i: int| 0 <= i < init.len() ==> init[i] == name[i]);
    }
}

proof fn lemma_first_dot_found(name: Seq<char>, k: int)
    requires
        0 <= k <= name.len(),
        forall|i: int| 0 <= i < k ==> (#[trigger] name[i]) != '.',
        k < name.len() ==> name[k] == '.',
    ensures
        first_dot(name) == k,
{
    lemma_first_dot(name);
    let d = first_dot(name);
    if d < k {
        assert(name[d] != '.');
    }
    if k < d {
        assert(name[k] != '.');
    }
}

/// Whether `name` is a name of the first level of interchange.
pub fn level_1(name: &str) -> (r: bool)
    ensures
        r == is_level_1(name@),
{
    let n = name.unicode_len();
    let mut dot: usize = 0;
    while dot < n && name.get_char(dot) != '.'
        invariant
            dot <= n,
            n == name@.len(),
            forall|i: int| 0 <= i < dot ==> (#[trigger] name@[i]) != '.',
        decreases n - dot,
    {
        dot += 1;
    }
    proof {
        lemma_first_dot_found(name@, dot as int);
    }
    if dot > MAX_FILENAME_LENGTH_LEVEL_1 {
        return false;
    }
    if dot < n && n - dot - 1 > MAX_EXTENSION_LENGTH_LEVEL_1 {
        return false;
    }
    let mut i: usize = 0;
    while i < n
        invariant
            i <= n,
            n == name@.len(),
            forall|j: int| 0 <= j < i ==> is_name_char(#[trigger] name@[j]),
        decreases n - i,
    {
        if !name_char(name.get_char(i)) {
            return false;
        }
        i += 1;
    }
    true
}

fn is_dotdot(name: &str) -> (r: bool)
    ensures
        r == (name@ == dotdot()),
{
    if name.unicode_len() != 2 {
        return false;
    }
    let r = name.get_char(0) == '.' && name.get_char(1) == '.';
    if r {
        assert(name@ =~= dotdot());
    }
    r
}

/// Whether the first three bytes of `escape` are one of the escape sequences
/// that are taken for Joliet: `%/E`, `%/C` or `%/G`.
pub open spec fn is_joliet_escape(escape: Seq<u8>) -> bool {
    &&& escape.len() >= 3
    &&& escape[0] == 0x25
    &&& escape[1] == 0x2F
    &&& (escape[2] == 0x45 || escape[2] == 0x43 || escape[2] == 0x47)
}

/// Whether the sector `sector` of `buffer` starts a supplementary volume
/// descriptor of Joliet: with the tag 2, the identifier `CD001`, and an
/// escape sequence of Joliet at byte 88.
pub open spec fn is_joliet_at(buffer: Seq<u8>, sector: int) -> bool {
    let offset = sector * 2048;
    &&& offset + 91 <= buffer.len()
    &&& buffer[offset] == 2
    &&& buffer.subrange(offset + 1, offset + 6) == cd001()
    &&& is_joliet_escape(buffer.subrange(offset + 88, offset + 91))
}

/// Whether one of the first `limit` sectors of `buffer` starts a
/// supplementary volume descriptor of Joliet.
pub open spec fn has_joliet(buffer: Seq<u8>, limit: int) -> bool
    decreases limit,
{
    if limit <= 0 {
        false
    } else {
        has_joliet(buffer, limit - 1) || is_joliet_at(buffer, limit - 1)
    }
}

/// How many sectors from the start of an image are looked at for the
/// descriptors of its extensions.
pub const DETECTED_SECTORS: usize = 32;

/// Finds the extensions that the descriptors in `buffer` announce. Only
/// Joliet is looked for.
pub fn detect_extensions(buffer: &[u8]) -> (r: IsoExtensions)
    ensures
        r == (IsoExtensions {
            joliet: has_joliet(buffer@, DETECTED_SECTORS as int),
            rock_ridge: false,
            el_torito: false,
            udf: false,
        }),
{
    let mut joliet = false;
    let mut sector: usize = 0;
    while sector < DETECTED_SECTORS
        invariant
            sector <= DETECTED_SECTORS,
            joliet == has_joliet(buffer@, sector as int),
        decreases DETECTED_SECTORS - sector,
    {
        let offset = sector * 2048;
        if buffer.len() >= offset + 91 {
            let found = buffer[offset] == 2 && buffer[offset + 1] == 0x43 && buffer[offset + 2]
                == 0x44 && buffer[offset + 3] == 0x30 && buffer[offset + 4] == 0x30
                && buffer[offset + 5] == 0x31 && buffer[offset + 88] == 0x25 && buffer[offset + 89]
                == 0x2F && (buffer[offset + 90] == 0x45 || buffer[offset + 90] == 0x43
                || buffer[offset + 90] == 0x47);
            proof {
                let id = buffer@.subrange(offset + 1, offset + 6);
                let escape = buffer@.subrange(offset + 88, offset + 91);
                assert(escape[0] == buffer@[offset + 88] && escape[1] == buffer@[offset + 89]
                    && escape[2] == buffer@[offset + 90]);
                if buffer@[offset + 1] == 0x43 && buffer@[offset + 2] == 0x44 && buffer@[offset
                    + 3] == 0x30 && buffer@[offset + 4] == 0x30 && buffer@[offset + 5] == 0x31 {
                    assert(id =~= cd001());
                } else {
                    assert(id[0] == buffer@[offset + 1] && id[1] == buffer@[offset + 2] && id[2]
                        == buffer@[offset + 3] && id[3] == buffer@[offset + 4] && id[4]
                        == buffer@[offset + 5]);
                }
                assert(found == is_joliet_at(buffer@, sector as int));
            }
            if found {
                joliet = true;
            }
        }
        sector += 1;
    }
    IsoExtensions { joliet, rock_ridge: false, el_torito: false, udf: false }
}

impl Iso {
    pub closed spec fn spec_volume_descriptor(&self) -> PrimaryVolumeDescriptor {
        self.volume_descriptor
    }

    pub closed spec fn spec_root_directory(&self) -> Directory {
        self.root_directory
    }

    pub closed spec fn spec_is_modified(&self) -> bool {
        self.modified
    }

    pub closed spec fn spec_extensions(&self) -> IsoExtensions {
        self.extensions
    }

    /// No two subdirectories and no two files of a directory of the image
    /// have one name.
    pub open spec fn wf(&self) -> bool {
        deep_wf(self.spec_root_directory())
    }

    /// A builder for an image.
    pub fn builder() -> (r: IsoBuilder)
        ensures
            r.model().volume_id == "ISO_VOLUME"@,
    {
        IsoBuilder::new()
    }

    pub fn root_directory(&self) -> (r: &Directory)
        ensures
            *r == self.spec_root_directory(),
    {
        &self.root_directory
    }

    /// The root directory, to be changed in place; the image then counts as
    /// modified.
    pub fn root_directory_mut(&mut self) -> (r: &mut Directory)
        ensures
            *r == old(self).spec_root_directory(),
            final(self).spec_root_directory() == *final(r),
            final(self).spec_is_modified(),
            final(self).spec_volume_descriptor() == old(self).spec_volume_descriptor(),
            final(self).spec_extensions() == old(self).spec_extensions(),
    {
        self.modified = true;
        &mut self.root_directory
    }

    pub fn volume_descriptor(&self) -> (r: &PrimaryVolumeDescriptor)
        ensures
            *r == self.spec_volume_descriptor(),
    {
        &self.volume_descriptor
    }

    /// The volume descriptor, to be changed in place; the image then counts
    /// as modified.
    pub fn volume_descriptor_mut(&mut self) -> (r: &mut PrimaryVolumeDescriptor)
        ensures
            *r == old(self).spec_volume_descriptor(),
            final(self).spec_volume_descriptor() == *final(r),
            final(self).spec_is_modified(),
            final(self).spec_root_directory() == old(self).spec_root_directory(),
            final(self).spec_extensions() == old(self).spec_extensions(),
    {
        self.modified = true;
        &mut self.volume_descriptor
    }

    pub fn is_modified(&self) -> (r: bool)
        ensures
            r == self.spec_is_modified(),
    {
        self.modified
    }

    pub fn extensions(&self) -> (r: &IsoExtensions)
        ensures
            *r == self.spec_extensions(),
    {
        &self.extensions
    }

    /// Checks a path against what the image can hold.
    pub fn validate_path(&self, path: &str) -> (r: Result<(), Error>)
        ensures
            match r {
                Ok(()) => is_valid_path(path@, self.spec_extensions()),
                Err(Error::PathError(_)) => !is_valid_path(path@, self.spec_extensions()),
                Err(_) => false,
            },
    {
        let parts = split_path(path);
        if parts.len() > MAX_PATH_DEPTH {
            return Err(Error::PathError("Path depth exceeds maximum".to_owned()));
        }
        if self.extensions.joliet || self.extensions.rock_ridge {
            return Ok(());
        }
        let n = parts.len();
        let mut k: usize = 0;
        while k < n
            invariant
                k <= n,
                n == parts@.len(),
                n <= MAX_PATH_DEPTH,
                !self.extensions.joliet,
                !self.extensions.rock_ridge,
                names(parts@) == components(path@),
                forall|j: int|
                    0 <= j < k ==> (#[trigger] components(path@)[j]) == dotdot() || is_level_1(
                        components(path@)[j],
                    ),
            decreases n - k,
        {
            let part = parts[k].as_str();
            assert(part@ == components(path@)[k as int]) by {
                assert(names(parts@)[k as int] == parts@[k as int]@);
            }
            if !is_dotdot(part) && !level_1(part) {
                proof {
                    let parts = components(path@);
                    assert(!(parts[k as int] == dotdot() || is_level_1(parts[k as int])));
                }
                return Err(Error::PathError("Invalid filename".to_owned()));
            }
            k += 1;
        }
        Ok(())
    }

    /// The directory at `path`, which may be empty for the root.
    pub fn find_directory(&self, path: &str) -> (r: Result<&Directory, Error>)
        ensures
            match lookup_directory(self.spec_root_directory(), components(path@), 0) {
                Some(d) => r is Ok && *r->Ok_0 == d,
                None => r is Err && r->Err_0 is PathError,
            },
    {
        let parts = split_path(path);
        find_directory_from(&self.root_directory, &parts, 0)
    }

    /// The bytes of the file at `path`.
    pub fn get_file_content(&self, path: &str) -> (r: Result<Vec<u8>, Error>)
        ensures
            match lookup_file(self.spec_root_directory(), components(path@), 0) {
                Some(content) => if components(path@).last() == dotdot() {
                    r is Err && r->Err_0 is PathError
                } else {
                    r is Ok && r->Ok_0@ == content
                },
                None => r is Err && r->Err_0 is PathError,
            },
    {
        let parts = split_path(path);
        let n = parts.len();
        if n == 0 || is_dotdot(parts[n - 1].as_str()) {
            return Err(Error::PathError("Invalid filename".to_owned()));
        }
        file_content_from(&self.root_directory, &parts, 0)
    }

    /// Puts a file with a copy of `content` at `path`, making the
    /// directories on the way. A path that the image cannot hold, one that
    /// names no file, and a file that is there already are refused, and
    /// nothing else is.
    pub fn add_file_with_content(&mut self, path: &str, content: &[u8]) -> (r: Result<(), Error>)
        requires
            old(self).wf(),
        ensures
            final(self).wf(),
            final(self).spec_volume_descriptor() == old(self).spec_volume_descriptor(),
            final(self).spec_extensions() == old(self).spec_extensions(),
            match r {
                Ok(()) => {
                    &&& is_valid_path(path@, old(self).spec_extensions())
                    &&& final(self).spec_is_modified()
                    &&& lookup_file(final(self).spec_root_directory(), components(path@), 0)
                        == Some(content@)
                },
                Err(e) => e is PathError,
            },
            r is Err <==> !is_valid_path(path@, old(self).spec_extensions()) || components(
                path@,
            ).len() == 0 || components(path@).last() == dotdot() || lookup_file(
                old(self).spec_root_directory(),
                components(path@),
                0,
            ) is Some,
    {
        match self.validate_path(path) {
            Ok(()) => {},
            Err(e) => {
                return Err(e);
            },
        }
        let parts = split_path(path);
        let n = parts.len();
        if n == 0 || is_dotdot(parts[n - 1].as_str()) {
            return Err(Error::PathError("Invalid filename".to_owned()));
        }
        match self.root_directory.add_file_at(&parts, 0, content) {
            Ok(()) => {
                self.modified = true;
                Ok(())
            },
            Err(e) => Err(e),
        }
    }

    /// Makes the directory at `path` and those on the way to it, as far as
    /// they are missing. A path that the image cannot hold is refused and
    /// leaves the image as it is; nothing else is refused.
    pub fn add_directory(&mut self, path: &str) -> (r: Result<(), Error>)
        requires
            old(self).wf(),
        ensures
            final(self).wf(),
            final(self).spec_volume_descriptor() == old(self).spec_volume_descriptor(),
            final(self).spec_extensions() == old(self).spec_extensions(),
            match r {
                Ok(()) => {
                    &&& is_valid_path(path@, old(self).spec_extensions())
                    &&& final(self).spec_is_modified()
                    &&& lookup_directory(final(self).spec_root_directory(), components(path@), 0)
                        is Some
                },
                Err(e) => e is PathError && *final(self) == *old(self),
            },
            r is Err <==> !is_valid_path(path@, old(self).spec_extensions()),
    {
        match self.validate_path(path) {
            Ok(()) => {},
            Err(e) => {
                return Err(e);
            },
        }
        let parts = split_path(path);
        match self.root_directory.add_directory_at(&parts, 0) {
            Ok(()) => {
                self.modified = true;
                Ok(())
            },
            Err(e) => Err(e),
        }
    }

    /// Whether `r` is what reading `image` gives, where `now` stands in for
    /// what cannot be read of the dates of the descriptor: an image without
    /// a primary volume descriptor in its first 32 sectors, and one whose root
    /// directory cannot be read, are refused as malformed; else the image that
    /// was read holds the tree of the root directory, the extensions that the
    /// descriptors announce, and the name and size of the volume.
    pub open spec fn reads_as(r: Result<Iso, Error>, image: Seq<u8>, now: u64) -> bool {
        match parsed(image, now) {
            None => r is Err && r->Err_0 is InvalidFormat,
            Some(descriptor) => match read_tree(
                image,
                descriptor.root_directory_entry,
                MAX_READ_DEPTH as nat,
            ) {
                None => r is Err && r->Err_0 is InvalidFormat,
                Some(tree) => {
                    &&& r is Ok
                    &&& r->Ok_0.wf()
                    &&& !r->Ok_0.spec_is_modified()
                    &&& r->Ok_0.spec_root_directory().tree() == tree
                    &&& r->Ok_0.spec_extensions().joliet == has_joliet(
                        image,
                        DETECTED_SECTORS as int,
                    )
                    &&& r->Ok_0.spec_volume_descriptor().model().volume_id
                        == descriptor.volume_id
                    &&& r->Ok_0.spec_volume_descriptor().model().volume_space_size
                        == descriptor.volume_space_size
                },
            },
        }
    }

    /// Reads an image: its primary volume descriptor, which is looked for in
    /// the first 32 sectors, the tree of its root directory, and the
    /// extensions that its descriptors announce. `now` stands in for what
    /// cannot be read of the dates of the descriptor. An image without a
    /// descriptor, and one whose root directory cannot be read, are refused as
    /// malformed.
    pub fn read_from_at(image: &[u8], now: u64) -> (r: Result<Self, Error>)
        ensures
            Iso::reads_as(r, image@, now),
    {
        let volume_descriptor = match PrimaryVolumeDescriptor::parse_from_buffer_at(image, now) {
            Some(descriptor) => descriptor,
            None => {
                return Err(
                    Error::InvalidFormat("Failed to find primary volume descriptor".to_owned()),
                );
            },
        };
        let ghost want = parsed(image@, now)->0.root_directory_entry;
        let root_entry = volume_descriptor.root_directory_entry();
        proof {
            lemma_read_tree_same(image@, root_entry.model(), want, MAX_READ_DEPTH as nat);
        }
        let root_directory = match Directory::read_from_iso(image, root_entry) {
            Ok(directory) => directory,
            Err(_) => {
                return Err(Error::InvalidFormat("Failed to read root directory".to_owned()));
            },
        };
        let extensions = detect_extensions(image);
        Ok(Iso { volume_descriptor, root_directory, modified: false, extensions })
    }

    /// Reads an image. See `read_from_at`; the time of now stands in for
    /// what cannot be read of the dates of the descriptor.
    pub fn read_from(image: &[u8]) -> (r: Result<Self, Error>)
        ensures
            exists|now: u64| #[trigger] Iso::reads_as(r, image@, now),
            r is Ok ==> r->Ok_0.wf() && !r->Ok_0.spec_is_modified(),
            r is Err ==> r->Err_0 is InvalidFormat,
            r is Ok ==> crate::volume::primary_sector(image@, SCANNED_SECTORS as int) is Some,
    {
        let now = now_seconds();
        let r = Iso::read_from_at(image, now);
        assert(Iso::reads_as(r, image@, now));
        r
    }

    /// `image` after the image was written into it, its records dated
    /// `time`: sixteen sectors of zeros at its start, the volume descriptor
    /// in sector 16, the terminator in sector 17, and then the root directory.
    pub open spec fn spec_written(&self, image: Seq<u8>, time: u64) -> Option<Seq<u8>> {
        if entry_record_size(self.spec_volume_descriptor().model().root_directory_entry) > 40 {
            None
        } else {
            written_to_iso(
                self.spec_root_directory(),
                overlay(
                    overlay(
                        overlay(image, 0, zeros(32768)),
                        32768,
                        sector_of(self.spec_volume_descriptor().model()),
                    ),
                    34816,
                    VolumeDescriptorSetTerminator.spec_bytes(),
                ),
                time,
            )
        }
    }

    /// Writes the image into `out`, its records dated `time`. What lies
    /// between the end of `out` and a place of writing is filled with zeros.
    /// A root directory whose record takes more than 40 bytes is refused
    /// before anything but the first sixteen sectors is written; what stops
    /// the writing of the root directory stops it where it stands.
    pub fn write_to_at(&self, out: &mut Vec<u8>, time: u64) -> (r: Result<(), Error>)
        ensures
            match self.spec_written(old(out)@, time) {
                Some(image) => r is Ok && final(out)@ == image,
                None => r is Err,
            },
    {
        let mut system: Vec<u8> = Vec::new();
        push_zeros(&mut system, 32768);
        write_at(out, 0, system.as_slice());
        match self.volume_descriptor.write_to(out) {
            Ok(()) => {},
            Err(e) => {
                return Err(e);
            },
        }
        self.write_volume_descriptor_set_terminator(out);
        self.root_directory.write_to_iso_at(out, time)
    }

    /// Writes the image into `out`, its records dated now: what `write_to_at`
    /// does at the moment that the clock of the machine gives, the image
    /// where there is one and an error where there is none.
    pub fn write_to(&self, out: &mut Vec<u8>) -> (r: Result<(), Error>)
        ensures
            exists|time: u64|
                match #[trigger] self.spec_written(old(out)@, time) {
                    Some(image) => r is Ok && final(out)@ == image,
                    None => r is Err,
                },
    {
        let time = now_seconds();
        self.write_to_at(out, time)
    }

    /// Writes the terminator of the set of volume descriptors into its
    /// sector of `out`, which is sector 17, and leaves the rest of the image
    /// as it is.
    pub fn write_volume_descriptor_set_terminator(&self, out: &mut Vec<u8>)
        ensures
            final(out)@ == overlay(
                old(out)@,
                34816int,
                VolumeDescriptorSetTerminator.spec_bytes(),
            ),
    {
        let mut sector: Vec<u8> = Vec::new();
        push_zeros(&mut sector, 2048);
        match VolumeDescriptorSetTerminator.serialize(sector.as_mut_slice()) {
            Ok(_) => {},
            Err(_) => {
                assert(false);
            },
        }
        assert(sector@ =~= VolumeDescriptorSetTerminator.spec_bytes());
        write_at(out, 34816, sector.as_slice());
    }
}

/// Walks from `directory` along the components of a path from `k` on.
fn find_directory_from<'a>(directory: &'a Directory, parts: &Vec<String>, k: usize) -> (r: Result<
    &'a Directory,
    Error,
>)
    requires
        k <= parts@.len(),
    ensures
        match lookup_directory(*directory, names(parts@), k as int) {
            Some(d) => r is Ok && *r->Ok_0 == d,
            None => r is Err && r->Err_0 is PathError,
        },
    decreases parts@.len() - k,
{
    if k >= parts.len() {
        return Ok(directory);
    }
    let name = parts[k].as_str();
    assert(name@ == names(parts@)[k as int]);
    if is_dotdot(name) {
        return find_directory_from(directory, parts, k + 1);
    }
    match directory.find_directory(name) {
        Some(child) => find_directory_from(child, parts, k + 1),
        None => Err(Error::PathError("Directory not found".to_owned())),
    }
}

/// Walks from `directory` along the components of a path from `k` on to a
/// file, and copies its bytes.
fn file_content_from(directory: &Directory, parts: &Vec<String>, k: usize) -> (r: Result<
    Vec<u8>,
    Error,
>)
    requires
        k < parts@.len(),
    ensures
        match lookup_file(*directory, names(parts@), k as int) {
            Some(content) => r is Ok && r->Ok_0@ == content,
            None => r is Err && r->Err_0 is PathError,
        },
    decreases parts@.len() - k,
{
    let name = parts[k].as_str();
    assert(name@ == names(parts@)[k as int]);
    if k == parts.len() - 1 {
        return match directory.find_file(name) {
            Some(file) => Ok(vstd::slice::slice_to_vec(file.content())),
            None => Err(Error::PathError("File not found".to_owned())),
        };
    }
    if is_dotdot(name) {
        return file_content_from(directory, parts, k + 1);
    }
    match directory.find_directory(name) {
        Some(child) => file_content_from(child, parts, k + 1),
        None => Err(Error::PathError("Directory not found".to_owned())),
    }
}

/// What is read for an entry depends on its name, its flags, and the place
/// and the size of its extent, and on nothing else.
pub proof fn lemma_read_tree_same(image: Seq<u8>, a: EntryModel, b: EntryModel, depth: nat)
    requires
        a.name == b.name,
        a.flags == b.flags,
        a.extent_location == b.extent_location,
        a.extent_size == b.extent_size,
    ensures
        read_tree(image, a, depth) == read_tree(image, b, depth),
{
}

} // verus!
