//! The catalog: formats, their converters, and converter versions.
//!
//! The catalog is a pure tree.  Formats are kept as an ordered list of
//! `(FormatId, FileFormat)` pairs with pairwise-distinct identifiers, and the
//! converters of a format likewise; the order is the catalog's own and makes
//! every walk over it deterministic.  A converter's versions are ordered
//! oldest first ("newest last") and are addressed by index.

use vstd::prelude::*;

verus! {

/// Opaque identifier of a file format, unique within a catalog.
#[derive(Clone, Copy, Debug, Hash, PartialEq, Eq, Structural)]
pub struct FormatId(pub u64);

/// Opaque identifier of a converter, unique within its format.
#[derive(Clone, Copy, Debug, Hash, PartialEq, Eq, Structural)]
pub struct ConverterId(pub u64);

/// Content hash of a converter's wasm module; its storage and cache key.
#[derive(Clone, Debug)]
pub struct ConverterHash(pub String);

/// One version of a converter: a human-readable label and the hash of the
/// wasm module that implements it.
#[derive(Clone, Debug)]
pub struct ConverterVersion {
    pub label: String,
    pub hash: ConverterHash,
}

/// A converter: a present/store pair for one format, in several versions.
#[derive(Clone, Debug)]
pub struct Converter {
    pub name: String,
    pub desc: String,
    /// Ordered oldest first; never empty in a well-formed catalog.
    pub versions: Vec<ConverterVersion>,
}

/// A file format: display data, the extensions it claims, its converters.
#[derive(Clone, Debug)]
pub struct FileFormat {
    pub name: String,
    pub desc: String,
    /// Extension hints (without the dot) that classify untagged files.
    pub extensions: Vec<String>,
    pub converters: Vec<(ConverterId, Converter)>,
}

/// The catalog itself.
#[derive(Clone, Debug)]
pub struct Galaxy {
    pub formats: Vec<(FormatId, FileFormat)>,
}

impl Converter {
    /// A converter must offer at least one version.
    pub open spec fn wf(&self) -> bool {
        self.versions@.len() >= 1
    }
}

impl FileFormat {
    /// Converter identifiers are pairwise distinct and each converter is
    /// well-formed.
    pub open spec fn wf(&self) -> bool {
        &&& forall|i: int, j: int|
            0 <= i < j < self.converters@.len() ==> (#[trigger] self.converters@[i]).0.0
                != (#[trigger] self.converters@[j]).0.0
        &&& forall|i: int|
            0 <= i < self.converters@.len() ==> (#[trigger] self.converters@[i]).1.wf()
    }

    /// The position of a converter identifier, if it is present.
    pub open spec fn spec_converter_index(&self, cid: ConverterId) -> Option<int> {
        if exists|i: int| 0 <= i < self.converters@.len() && (#[trigger] self.converters@[i]).0.0 == cid.0 {
            Some(choose|i: int| 0 <= i < self.converters@.len() && (#[trigger] self.converters@[i]).0.0 == cid.0)
        } else {
            None
        }
    }

    /// Look a converter up by its identifier.
    pub fn get_converter(&self, cid: ConverterId) -> (r: Option<&Converter>)
        requires
            self.wf(),
        ensures
            match r {
                Some(c) => {
                    &&& self.spec_converter_index(cid) matches Some(i)
                    &&& 0 <= i < self.converters@.len()
                    &&& self.converters@[i].0.0 == cid.0
                    &&& *c == self.converters@[i].1
                },
                None => self.spec_converter_index(cid) is None,
            },
    {
        let n = self.converters.len();
        let mut k: usize = 0;
        while k < n
            invariant
                self.wf(),
                n == self.converters@.len(),
                0 <= k <= n,
                forall|i: int| 0 <= i < k ==> (#[trigger] self.converters@[i]).0.0 != cid.0,
            decreases n - k,
        {
            if self.converters[k].0.0 == cid.0 {
                proof {
                    assert(self.converters@[k as int].0.0 == cid.0);
                    let i = self.spec_converter_index(cid)->Some_0;
                    assert(self.converters@[i].0.0 == cid.0);
                    assert(i == k);
                }
                return Some(&self.converters[k].1);
            }
            k += 1;
        }
        None
    }
}

impl Galaxy {
    /// Format identifiers are pairwise distinct and each format is
    /// well-formed.
    pub open spec fn wf(&self) -> bool {
        &&& forall|i: int, j: int|
            0 <= i < j < self.formats@.len() ==> (#[trigger] self.formats@[i]).0.0
                != (#[trigger] self.formats@[j]).0.0
        &&& forall|i: int|
            0 <= i < self.formats@.len() ==> (#[trigger] self.formats@[i]).1.wf()
    }

    /// The position of a format identifier, if it is present.
    pub open spec fn spec_format_index(&self, fid: FormatId) -> Option<int> {
        if exists|i: int| 0 <= i < self.formats@.len() && (#[trigger] self.formats@[i]).0.0 == fid.0 {
            Some(choose|i: int| 0 <= i < self.formats@.len() && (#[trigger] self.formats@[i]).0.0 == fid.0)
        } else {
            None
        }
    }

    /// Look a format up by its identifier.
    pub fn get_format(&self, fid: FormatId) -> (r: Option<&FileFormat>)
        requires
            self.wf(),
        ensures
            match r {
                Some(f) => {
                    &&& self.spec_format_index(fid) matches Some(i)
                    &&& 0 <= i < self.formats@.len()
                    &&& self.formats@[i].0.0 == fid.0
                    &&& *f == self.formats@[i].1
                },
                None => self.spec_format_index(fid) is None,
            },
    {
        let n = self.formats.len();
        let mut k: usize = 0;
        while k < n
            invariant
                self.wf(),
                n == self.formats@.len(),
                0 <= k <= n,
                forall|i: int| 0 <= i < k ==> (#[trigger] self.formats@[i]).0.0 != fid.0,
            decreases n - k,
        {
            if self.formats[k].0.0 == fid.0 {
                proof {
                    assert(self.formats@[k as int].0.0 == fid.0);
                    let i = self.spec_format_index(fid)->Some_0;
                    assert(self.formats@[i].0.0 == fid.0);
                    assert(i == k);
                }
                return Some(&self.formats[k].1);
            }
            k += 1;
        }
        None
    }

    /// The position of a format in the catalog's order, by identifier.
    pub fn format_position(&self, fid: FormatId) -> (r: Option<usize>)
        requires
            self.wf(),
        ensures
            match r {
                Some(i) => self.spec_format_index(fid) == Some(i as int),
                None => self.spec_format_index(fid) is None,
            },
    {
        let n = self.formats.len();
        let mut k: usize = 0;
        while k < n
            invariant
                self.wf(),
                n == self.formats@.len(),
                0 <= k <= n,
                forall|i: int| 0 <= i < k ==> (#[trigger] self.formats@[i]).0.0 != fid.0,
            decreases n - k,
        {
            if self.formats[k].0.0 == fid.0 {
                proof {
                    assert(self.formats@[k as int].0.0 == fid.0);
                    let i = self.spec_format_index(fid)->Some_0;
                    assert(self.formats@[i].0.0 == fid.0);
                    assert(i == k);
                }
                return Some(k);
            }
            k += 1;
        }
        None
    }

    /// Look a converter up by format and converter identifier.
    pub fn get_format_converter(&self, fid: FormatId, cid: ConverterId) -> (r: Option<&Converter>)
        requires
            self.wf(),
        ensures
            r is Some ==> {
                &&& self.spec_format_index(fid) matches Some(i)
                &&& self.formats@[i].1.spec_converter_index(cid) is Some
            },
            self.spec_format_index(fid) is None ==> r is None,
            (self.spec_format_index(fid) matches Some(i)
                && self.formats@[i].1.spec_converter_index(cid) matches Some(j)) ==> (r matches Some(c)
                && *c == self.formats@[self.spec_format_index(fid)->Some_0].1
                    .converters@[self.formats@[self.spec_format_index(fid)->Some_0].1
                    .spec_converter_index(cid)->Some_0].1),
    {
        match self.get_format(fid) {
            Some(f) => f.get_converter(cid),
            None => None,
        }
    }

    /// The catalog stores a version under this format, converter and
    /// storage index.
    pub open spec fn spec_has_version(&self, fid: FormatId, cid: ConverterId, idx: usize) -> bool {
        &&& self.spec_format_index(fid) matches Some(i)
        &&& self.formats@[self.spec_format_index(fid)->Some_0].1.spec_converter_index(cid) matches Some(j)
        &&& idx < self.formats@[self.spec_format_index(fid)->Some_0].1
            .converters@[self.formats@[self.spec_format_index(fid)->Some_0].1
            .spec_converter_index(cid)->Some_0].1.versions@.len()
    }

    /// Look a version up by format, converter, and storage index.  The
    /// lookup succeeds exactly when the catalog stores such a version.
    pub fn get_version(&self, fid: FormatId, cid: ConverterId, idx: usize) -> (r: Option<
        &ConverterVersion,
    >)
        requires
            self.wf(),
        ensures
            r is Some <==> self.spec_has_version(fid, cid, idx),
            r matches Some(v) ==> {
                &&& self.spec_format_index(fid) matches Some(i)
                &&& self.formats@[i].1.spec_converter_index(cid) matches Some(j)
                &&& idx < self.formats@[i].1.converters@[j].1.versions@.len()
                &&& *v == self.formats@[i].1.converters@[j].1.versions@[idx as int]
            },
    {
        match self.get_format_converter(fid, cid) {
            Some(c) => {
                if idx < c.versions.len() {
                    Some(&c.versions[idx])
                } else {
                    None
                }
            },
            None => None,
        }
    }

    /// Decide well-formedness at run time, so that a caller holding a catalog
    /// decoded from untrusted text can establish `wf` before using it.
    pub fn validate(&self) -> (r: bool)
        ensures
            r == self.wf(),
    {
        let n = self.formats.len();
        let mut k: usize = 0;
        while k < n
            invariant
                n == self.formats@.len(),
                0 <= k <= n,
                forall|i: int, j: int|
                    0 <= i < j < k ==> (#[trigger] self.formats@[i]).0.0
                        != (#[trigger] self.formats@[j]).0.0,
                forall|i: int| 0 <= i < k ==> (#[trigger] self.formats@[i]).1.wf(),
            decreases n - k,
        {
            let mut m: usize = 0;
            while m < k
                invariant
                    n == self.formats@.len(),
                    0 <= m <= k < n,
                    forall|i: int| 0 <= i < m ==> (#[trigger] self.formats@[i]).0.0 != self.formats@[k as int].0.0,
                decreases k - m,
            {
                if self.formats[m].0.0 == self.formats[k].0.0 {
                    return false;
                }
                m += 1;
            }
            if !Self::validate_format(&self.formats[k].1) {
                return false;
            }
            k += 1;
        }
        true
    }

    fn validate_format(f: &FileFormat) -> (r: bool)
        ensures
            r == f.wf(),
    {
        let n = f.converters.len();
        let mut k: usize = 0;
        while k < n
            invariant
                n == f.converters@.len(),
                0 <= k <= n,
                forall|i: int, j: int|
                    0 <= i < j < k ==> (#[trigger] f.converters@[i]).0.0
                        != (#[trigger] f.converters@[j]).0.0,
                forall|i: int| 0 <= i < k ==> (#[trigger] f.converters@[i]).1.wf(),
            decreases n - k,
        {
            let mut m: usize = 0;
            while m < k
                invariant
                    n == f.converters@.len(),
                    0 <= m <= k < n,
                    forall|i: int| 0 <= i < m ==> (#[trigger] f.converters@[i]).0.0 != f.converters@[k as int].0.0,
                decreases k - m,
            {
                if f.converters[m].0.0 == f.converters[k].0.0 {
                    return false;
                }
                m += 1;
            }
            if f.converters[k].1.versions.len() == 0 {
                return false;
            }
            k += 1;
        }
        true
    }
}

} // verus!
