//! Package records: the typed content of a descriptor.

use crate::db::desc::{descriptor, lookup, parse_to_map, Descriptor, EntryView};
use crate::db::field::{
    base64_decoded, digest_of, first_line, lines, parse_digest, parse_unsigned,
    parse_unsigned_u8, same_str, split_lines, take_first_line, unsigned, unsigned_u8,
};
use crate::db::pool::{
    after_interns, all_known, extends, intern_list, intern_opt,
    lemma_after_interns_joined, lemma_after_interns_len, lemma_extends_reflexive,
    lemma_extends_transitive, lemma_text_stays, lemma_texts_stay, opt_item, pool_limit, texts_of,
    Istr, Pool,
};
use crate::text::strs_view;
use std::collections::HashSet;
use vstd::prelude::*;
use vstd::std_specs::hash::group_hash_axioms;

verus! {

/// How a package was validated when it was installed.
#[derive(Clone, Copy, Debug, PartialEq, Eq, Structural)]
pub enum Validation {
    Nothing,
    Md5Sum,
    Sha256Sum,
    Signature,
}

/// The architecture that a package was built for.
#[allow(non_camel_case_types)]
#[derive(Clone, Copy, Debug, PartialEq, Eq, Structural)]
pub enum Arch {
    X86_64,
    Any,
}

/// The kind of a package, from its extra data.
#[derive(Clone, Copy, Debug, PartialEq, Eq, Structural)]
pub enum XData {
    Pkg,
    Split,
    Debug,
}

/// The validation that a tag names.
pub open spec fn validation_of(s: Seq<char>) -> Option<Validation> {
    if s == "none"@ {
        Some(Validation::Nothing)
    } else if s == "md5"@ {
        Some(Validation::Md5Sum)
    } else if s == "sha256"@ {
        Some(Validation::Sha256Sum)
    } else if s == "pgp"@ {
        Some(Validation::Signature)
    } else {
        None
    }
}

/// The architecture that a tag names.
pub open spec fn arch_of(s: Seq<char>) -> Option<Arch> {
    if s == "x86_64"@ {
        Some(Arch::X86_64)
    } else if s == "any"@ {
        Some(Arch::Any)
    } else {
        None
    }
}

/// The kind of package that extra data name.
pub open spec fn xdata_of(s: Seq<char>) -> Option<XData> {
    if s == "pkgtype=pkg"@ {
        Some(XData::Pkg)
    } else if s == "pkgtype=split"@ {
        Some(XData::Split)
    } else if s == "pkgtype=debug"@ {
        Some(XData::Debug)
    } else {
        None
    }
}

impl Validation {
    /// Reads the tag of a validation.
    pub fn from_str(s: &str) -> (r: Result<Validation, ()>)
        ensures
            match r {
                Ok(v) => validation_of(s@) == Some(v),
                Err(_) => validation_of(s@) is None,
            },
    {
        if same_str(s, "none") {
            Ok(Validation::Nothing)
        } else if same_str(s, "md5") {
            Ok(Validation::Md5Sum)
        } else if same_str(s, "sha256") {
            Ok(Validation::Sha256Sum)
        } else if same_str(s, "pgp") {
            Ok(Validation::Signature)
        } else {
            Err(())
        }
    }
}

impl Arch {
    /// Reads the tag of an architecture.
    pub fn from_str(s: &str) -> (r: Result<Arch, ()>)
        ensures
            match r {
                Ok(a) => arch_of(s@) == Some(a),
                Err(_) => arch_of(s@) is None,
            },
    {
        if same_str(s, "x86_64") {
            Ok(Arch::X86_64)
        } else if same_str(s, "any") {
            Ok(Arch::Any)
        } else {
            Err(())
        }
    }

    /// The tag of an architecture.
    pub fn as_str(self) -> (s: &'static str)
        ensures
            s@ == match self {
                Arch::X86_64 => "x86_64"@,
                Arch::Any => "any"@,
            },
            arch_of(s@) == Some(self),
    {
        proof {
            reveal_strlit("x86_64");
            reveal_strlit("any");
            assert("x86_64"@.len() == 6);
            assert("any"@.len() == 3);
        }
        match self {
            Arch::X86_64 => "x86_64",
            Arch::Any => "any",
        }
    }
}

impl XData {
    /// Reads the extra data of a package.
    pub fn from_str(s: &str) -> (r: Result<XData, ()>)
        ensures
            match r {
                Ok(x) => xdata_of(s@) == Some(x),
                Err(_) => xdata_of(s@) is None,
            },
    {
        if same_str(s, "pkgtype=pkg") {
            Ok(XData::Pkg)
        } else if same_str(s, "pkgtype=split") {
            Ok(XData::Split)
        } else if same_str(s, "pkgtype=debug") {
            Ok(XData::Debug)
        } else {
            Err(())
        }
    }
}

/// The content of a package record, as texts and numbers.
pub struct Record {
    pub base: Seq<char>,
    pub name: Seq<char>,
    pub version: Seq<char>,
    pub arch: Arch,
    pub reason: Option<u8>,
    pub install_date: Option<u64>,
    pub validation: Option<Validation>,
    pub packager: Seq<char>,
    pub isize: Option<u64>,
    pub csize: Option<u64>,
    pub build_date: u64,
    pub url: Seq<char>,
    pub license: Seq<Seq<char>>,
    pub desc: Seq<char>,
    pub filename: Option<Seq<char>>,
    pub md5sum: Option<Seq<u8>>,
    pub sha256sum: Option<Seq<u8>>,
    pub pgpsig: Option<Seq<char>>,
    pub provides: Option<Seq<Seq<char>>>,
    pub depends: Option<Seq<Seq<char>>>,
    pub optdepends: Option<Seq<Seq<char>>>,
    pub makedepends: Option<Seq<Seq<char>>>,
    pub checkdepends: Option<Seq<Seq<char>>>,
    pub groups: Option<Seq<Seq<char>>>,
    pub replaces: Option<Set<Seq<char>>>,
    pub conflicts: Option<Seq<Seq<char>>>,
    pub xdata: Option<XData>,
}

/// The field of a descriptor that holds a list, split into its lines.
pub open spec fn list_field(d: Seq<EntryView>, key: Seq<char>) -> Option<Seq<Seq<char>>> {
    match lookup(d, key) {
        Some(v) => Some(lines(v)),
        None => None,
    }
}

/// A field that may be missing holds what `read` accepts.
pub open spec fn field_reads<T>(
    d: Seq<EntryView>,
    key: Seq<char>,
    read: spec_fn(Seq<char>) -> Option<T>,
) -> bool {
    match lookup(d, key) {
        Some(v) => read(v) is Some,
        None => true,
    }
}

/// What `read` makes of a field that may be missing.
pub open spec fn field_value<T>(
    d: Seq<EntryView>,
    key: Seq<char>,
    read: spec_fn(Seq<char>) -> Option<T>,
) -> Option<T> {
    match lookup(d, key) {
        Some(v) => read(v),
        None => None,
    }
}

/// The installed size of a record: the field `SIZE`, or `ISIZE` where that is
/// missing.
pub open spec fn size_field(d: Seq<EntryView>) -> Option<Seq<char>> {
    match lookup(d, "SIZE"@) {
        Some(v) => Some(v),
        None => lookup(d, "ISIZE"@),
    }
}

/// The names that a record replaces: the lines of `REPLACES` but for the
/// record's own name.
pub open spec fn replaces_field(d: Seq<EntryView>) -> Option<Set<Seq<char>>> {
    match lookup(d, "REPLACES"@) {
        Some(v) => Some(lines(v).to_set().remove(lookup(d, "NAME"@).unwrap())),
        None => None,
    }
}

/// The entries hold every field that a record must have.
pub open spec fn required_present(d: Seq<EntryView>) -> bool {
    &&& lookup(d, "BASE"@) is Some
    &&& lookup(d, "NAME"@) is Some
    &&& lookup(d, "VERSION"@) is Some
    &&& lookup(d, "ARCH"@) is Some
    &&& lookup(d, "PACKAGER"@) is Some
    &&& lookup(d, "BUILDDATE"@) is Some
    &&& lookup(d, "URL"@) is Some
    &&& lookup(d, "LICENSE"@) is Some
    &&& lookup(d, "DESC"@) is Some
}

/// Every field that is there and holds a number, a tag or a digest holds
/// one that can be read.
pub open spec fn fields_read(d: Seq<EntryView>) -> bool {
    &&& field_reads(d, "ARCH"@, |v: Seq<char>| arch_of(v))
    &&& field_reads(d, "REASON"@, |v: Seq<char>| unsigned_u8(v))
    &&& field_reads(d, "INSTALLDATE"@, |v: Seq<char>| unsigned(v))
    &&& field_reads(d, "BUILDDATE"@, |v: Seq<char>| unsigned(v))
    &&& (size_field(d) matches Some(v) ==> unsigned(v) is Some)
    &&& field_reads(d, "CSIZE"@, |v: Seq<char>| unsigned(v))
    &&& field_reads(d, "VALIDATION"@, |v: Seq<char>| validation_of(first_line(v)))
    &&& field_reads(d, "MD5SUM"@, |v: Seq<char>| digest_of::<24>(base64_decoded(v)))
    &&& field_reads(d, "SHA256SUM"@, |v: Seq<char>| digest_of::<48>(base64_decoded(v)))
    &&& field_reads(d, "XDATA"@, |v: Seq<char>| xdata_of(v))
}

/// The record that the entries of a descriptor make, where they make one:
/// every required field is there, and no field holds what cannot be read.
pub open spec fn record(d: Seq<EntryView>) -> Option<Record> {
    if required_present(d) && fields_read(d) {
        Some(
            Record {
                base: lookup(d, "BASE"@).unwrap(),
                name: lookup(d, "NAME"@).unwrap(),
                version: lookup(d, "VERSION"@).unwrap(),
                arch: arch_of(lookup(d, "ARCH"@).unwrap()).unwrap(),
                reason: field_value(d, "REASON"@, |v: Seq<char>| unsigned_u8(v)),
                install_date: field_value(d, "INSTALLDATE"@, |v: Seq<char>| unsigned(v)),
                validation: field_value(
                    d,
                    "VALIDATION"@,
                    |v: Seq<char>| validation_of(first_line(v)),
                ),
                packager: lookup(d, "PACKAGER"@).unwrap(),
                isize: match size_field(d) {
                    Some(v) => unsigned(v),
                    None => None,
                },
                csize: field_value(d, "CSIZE"@, |v: Seq<char>| unsigned(v)),
                build_date: unsigned(lookup(d, "BUILDDATE"@).unwrap()).unwrap(),
                url: lookup(d, "URL"@).unwrap(),
                license: lines(lookup(d, "LICENSE"@).unwrap()),
                desc: lookup(d, "DESC"@).unwrap(),
                filename: lookup(d, "FILENAME"@),
                md5sum: field_value(
                    d,
                    "MD5SUM"@,
                    |v: Seq<char>| digest_of::<24>(base64_decoded(v)),
                ),
                sha256sum: field_value(
                    d,
                    "SHA256SUM"@,
                    |v: Seq<char>| digest_of::<48>(base64_decoded(v)),
                ),
                pgpsig: lookup(d, "PGPSIG"@),
                provides: list_field(d, "PROVIDES"@),
                depends: list_field(d, "DEPENDS"@),
                optdepends: list_field(d, "OPTDEPENDS"@),
                makedepends: list_field(d, "MAKEDEPENDS"@),
                checkdepends: list_field(d, "CHECKDEPENDS"@),
                groups: list_field(d, "GROUPS"@),
                replaces: replaces_field(d),
                conflicts: list_field(d, "CONFLICTS"@),
                xdata: field_value(d, "XDATA"@, |v: Seq<char>| xdata_of(v)),
            },
        )
    } else {
        None
    }
}

/// A package record. Its texts stand in a pool and are named by handles.
#[derive(Clone, Debug)]
pub struct Package {
    pub base: Istr,
    pub name: Istr,
    pub version: Istr,
    pub arch: Arch,
    /// 0 for an explicit installation, 1 for a dependency, 2 for unknown.
    pub reason: Option<u8>,
    /// Milliseconds since the start of 1970.
    pub install_date: Option<u64>,
    pub validation: Option<Validation>,
    pub packager: Istr,
    pub isize: Option<u64>,
    pub csize: Option<u64>,
    /// Milliseconds since the start of 1970.
    pub build_date: u64,
    pub url: Istr,
    pub license: Vec<Istr>,
    pub desc: Istr,
    pub filename: Option<Istr>,
    pub md5sum: Option<[u8; 24]>,
    pub sha256sum: Option<[u8; 48]>,
    pub pgpsig: Option<Istr>,
    pub provides: Option<Vec<Istr>>,
    pub depends: Option<Vec<Istr>>,
    pub optdepends: Option<Vec<Istr>>,
    pub makedepends: Option<Vec<Istr>>,
    pub checkdepends: Option<Vec<Istr>>,
    pub groups: Option<Vec<Istr>>,
    pub replaces: Option<HashSet<u32>>,
    pub conflicts: Option<Vec<Istr>>,
    pub xdata: Option<XData>,
}

/// The text that a handle which may be missing stands for.
pub open spec fn opt_text(pool: Seq<Seq<char>>, h: Option<Istr>) -> Option<Seq<char>> {
    match h {
        Some(x) => Some(pool[x.id as int]),
        None => None,
    }
}

/// The texts that a list of handles which may be missing stands for.
pub open spec fn opt_texts(pool: Seq<Seq<char>>, hs: Option<Vec<Istr>>) -> Option<Seq<Seq<char>>> {
    match hs {
        Some(v) => Some(texts_of(pool, v@)),
        None => None,
    }
}

/// The texts that a set of handles stands for.
pub open spec fn names_of(pool: Seq<Seq<char>>, ids: Set<u32>) -> Set<Seq<char>> {
    Set::new(
        |s: Seq<char>|
            exists|id: u32| ids.contains(id) && id < pool.len() && pool[id as int] == s,
    )
}

/// `pool` gave out the handle `h`, where there is one.
pub open spec fn opt_known(pool: Seq<Seq<char>>, h: Option<Istr>) -> bool {
    h matches Some(x) ==> x.id < pool.len()
}

/// `pool` gave out every handle of `hs`, where there is a list.
pub open spec fn opt_all_known(pool: Seq<Seq<char>>, hs: Option<Vec<Istr>>) -> bool {
    hs matches Some(v) ==> all_known(pool, v@)
}

impl Package {
    /// `pool` gave out every handle of the package, and the package does not
    /// replace itself.
    pub open spec fn wf(&self, pool: Seq<Seq<char>>) -> bool {
        &&& self.base.id < pool.len()
        &&& self.name.id < pool.len()
        &&& self.version.id < pool.len()
        &&& self.packager.id < pool.len()
        &&& self.url.id < pool.len()
        &&& self.desc.id < pool.len()
        &&& all_known(pool, self.license@)
        &&& opt_known(pool, self.filename)
        &&& opt_known(pool, self.pgpsig)
        &&& opt_all_known(pool, self.provides)
        &&& opt_all_known(pool, self.depends)
        &&& opt_all_known(pool, self.optdepends)
        &&& opt_all_known(pool, self.makedepends)
        &&& opt_all_known(pool, self.checkdepends)
        &&& opt_all_known(pool, self.groups)
        &&& opt_all_known(pool, self.conflicts)
        &&& (self.replaces matches Some(set) ==> !set@.contains(self.name.id) && forall|id: u32|
            set@.contains(id) ==> id < pool.len())
    }

    /// The handles that the package replaces; none where it has no such field.
    pub open spec fn replaced(&self) -> Set<u32> {
        match self.replaces {
            Some(set) => set@,
            None => Set::empty(),
        }
    }

    /// The content of the package, with every handle resolved in `pool`.
    pub open spec fn record(&self, pool: Seq<Seq<char>>) -> Record {
        Record {
            base: pool[self.base.id as int],
            name: pool[self.name.id as int],
            version: pool[self.version.id as int],
            arch: self.arch,
            reason: self.reason,
            install_date: self.install_date,
            validation: self.validation,
            packager: pool[self.packager.id as int],
            isize: self.isize,
            csize: self.csize,
            build_date: self.build_date,
            url: pool[self.url.id as int],
            license: texts_of(pool, self.license@),
            desc: pool[self.desc.id as int],
            filename: opt_text(pool, self.filename),
            md5sum: match self.md5sum {
                Some(a) => Some(a@),
                None => None,
            },
            sha256sum: match self.sha256sum {
                Some(a) => Some(a@),
                None => None,
            },
            pgpsig: opt_text(pool, self.pgpsig),
            provides: opt_texts(pool, self.provides),
            depends: opt_texts(pool, self.depends),
            optdepends: opt_texts(pool, self.optdepends),
            makedepends: opt_texts(pool, self.makedepends),
            checkdepends: opt_texts(pool, self.checkdepends),
            groups: opt_texts(pool, self.groups),
            replaces: match self.replaces {
                Some(set) => Some(names_of(pool, set@)),
                None => None,
            },
            conflicts: opt_texts(pool, self.conflicts),
            xdata: self.xdata,
        }
    }
}

/// The lines of a list that may be missing.
pub open spec fn opt_items(l: Option<Seq<Seq<char>>>) -> Seq<Seq<char>> {
    match l {
        Some(v) => v,
        None => Seq::empty(),
    }
}

/// The texts that a record puts into the pool, in the order in which they go
/// in: the six texts that every record has, the licenses, the name of the
/// file and the signature where they are there, and the lines of each list.
pub open spec fn interned_texts(d: Seq<EntryView>) -> Seq<Seq<char>> {
    seq![
        lookup(d, "BASE"@).unwrap(),
        lookup(d, "NAME"@).unwrap(),
        lookup(d, "VERSION"@).unwrap(),
        lookup(d, "PACKAGER"@).unwrap(),
        lookup(d, "URL"@).unwrap(),
        lookup(d, "DESC"@).unwrap(),
    ] + opt_items(list_field(d, "LICENSE"@)) + opt_item(lookup(d, "FILENAME"@)) + opt_item(
        lookup(d, "PGPSIG"@),
    ) + opt_items(list_field(d, "PROVIDES"@)) + opt_items(list_field(d, "DEPENDS"@)) + opt_items(
        list_field(d, "OPTDEPENDS"@),
    ) + opt_items(list_field(d, "MAKEDEPENDS"@)) + opt_items(list_field(d, "CHECKDEPENDS"@))
        + opt_items(list_field(d, "GROUPS"@)) + opt_items(list_field(d, "REPLACES"@))
        + opt_items(list_field(d, "CONFLICTS"@))
}

/// The fields of a descriptor, read but not yet put into a pool.
pub struct Fields<'a> {
    pub base: &'a str,
    pub name: &'a str,
    pub version: &'a str,
    pub arch: Arch,
    pub reason: Option<u8>,
    pub install_date: Option<u64>,
    pub validation: Option<Validation>,
    pub packager: &'a str,
    pub isize: Option<u64>,
    pub csize: Option<u64>,
    pub build_date: u64,
    pub url: &'a str,
    pub license: Vec<&'a str>,
    pub desc: &'a str,
    pub filename: Option<&'a str>,
    pub md5sum: Option<[u8; 24]>,
    pub sha256sum: Option<[u8; 48]>,
    pub pgpsig: Option<&'a str>,
    pub provides: Option<Vec<&'a str>>,
    pub depends: Option<Vec<&'a str>>,
    pub optdepends: Option<Vec<&'a str>>,
    pub makedepends: Option<Vec<&'a str>>,
    pub checkdepends: Option<Vec<&'a str>>,
    pub groups: Option<Vec<&'a str>>,
    pub replaces: Option<Vec<&'a str>>,
    pub conflicts: Option<Vec<&'a str>>,
    pub xdata: Option<XData>,
}

/// The view of a string that may be missing.
pub open spec fn opt_str(s: Option<&str>) -> Option<Seq<char>> {
    match s {
        Some(x) => Some(x@),
        None => None,
    }
}

/// The views of a list of strings that may be missing.
pub open spec fn opt_strs(l: Option<Vec<&str>>) -> Option<Seq<Seq<char>>> {
    match l {
        Some(v) => Some(strs_view(v@)),
        None => None,
    }
}

impl<'a> Fields<'a> {
    /// The content of the fields.
    pub open spec fn record(&self) -> Record {
        Record {
            base: self.base@,
            name: self.name@,
            version: self.version@,
            arch: self.arch,
            reason: self.reason,
            install_date: self.install_date,
            validation: self.validation,
            packager: self.packager@,
            isize: self.isize,
            csize: self.csize,
            build_date: self.build_date,
            url: self.url@,
            license: strs_view(self.license@),
            desc: self.desc@,
            filename: opt_str(self.filename),
            md5sum: match self.md5sum {
                Some(a) => Some(a@),
                None => None,
            },
            sha256sum: match self.sha256sum {
                Some(a) => Some(a@),
                None => None,
            },
            pgpsig: opt_str(self.pgpsig),
            provides: opt_strs(self.provides),
            depends: opt_strs(self.depends),
            optdepends: opt_strs(self.optdepends),
            makedepends: opt_strs(self.makedepends),
            checkdepends: opt_strs(self.checkdepends),
            groups: opt_strs(self.groups),
            replaces: match self.replaces {
                Some(v) => Some(strs_view(v@).to_set().remove(self.name@)),
                None => None,
            },
            conflicts: opt_strs(self.conflicts),
            xdata: self.xdata,
        }
    }

    /// The texts that the fields put into the pool, in the order in which
    /// they go in.
    pub open spec fn texts(&self) -> Seq<Seq<char>> {
        seq![self.base@, self.name@, self.version@, self.packager@, self.url@, self.desc@]
            + strs_view(self.license@) + opt_item(opt_str(self.filename)) + opt_item(
            opt_str(self.pgpsig),
        ) + opt_items(opt_strs(self.provides)) + opt_items(opt_strs(self.depends)) + opt_items(
            opt_strs(self.optdepends),
        ) + opt_items(opt_strs(self.makedepends)) + opt_items(opt_strs(self.checkdepends))
            + opt_items(opt_strs(self.groups)) + opt_items(opt_strs(self.replaces)) + opt_items(
            opt_strs(self.conflicts),
        )
    }
}

/// Reads a field that holds a list.
pub fn read_list<'a>(d: &Descriptor<'a>, key: &str) -> (r: Option<Vec<&'a str>>)
    ensures
        opt_strs(r) == list_field(d@, key@),
{
    match d.get(key) {
        Some(v) => Some(split_lines(v)),
        None => None,
    }
}

/// Reads a field that may be missing and holds a number of 64 bits. The
/// outer `None` says that the field holds no such number.
pub fn read_number(d: &Descriptor<'_>, key: &str) -> (r: Option<Option<u64>>)
    ensures
        match r {
            Some(n) => field_reads(d@, key@, |v: Seq<char>| unsigned(v)) && n == field_value(
                d@,
                key@,
                |v: Seq<char>| unsigned(v),
            ),
            None => !field_reads(d@, key@, |v: Seq<char>| unsigned(v)),
        },
{
    match d.get(key) {
        Some(v) => match parse_unsigned(v) {
            Some(n) => Some(Some(n)),
            None => None,
        },
        None => Some(None),
    }
}

/// Reads the fields of a descriptor into their types.
pub fn read_fields<'a>(d: &Descriptor<'a>) -> (r: Option<Fields<'a>>)
    ensures
        match r {
            Some(f) => record(d@) == Some(f.record()) && f.texts() == interned_texts(d@),
            None => record(d@) is None,
        },
{
    let (base, name, version) = match (d.get("BASE"), d.get("NAME"), d.get("VERSION")) {
        (Some(b), Some(n), Some(v)) => (b, n, v),
        _ => {
            return None;
        },
    };
    let (packager, url, desc) = match (d.get("PACKAGER"), d.get("URL"), d.get("DESC")) {
        (Some(p), Some(u), Some(e)) => (p, u, e),
        _ => {
            return None;
        },
    };
    let arch = match d.get("ARCH") {
        Some(a) => match Arch::from_str(a) {
            Ok(x) => x,
            Err(_) => {
                return None;
            },
        },
        None => {
            return None;
        },
    };
    let license = match d.get("LICENSE") {
        Some(l) => split_lines(l),
        None => {
            return None;
        },
    };
    let build_date = match d.get("BUILDDATE") {
        Some(v) => match parse_unsigned(v) {
            Some(n) => n,
            None => {
                return None;
            },
        },
        None => {
            return None;
        },
    };
    let reason = match d.get("REASON") {
        Some(v) => match parse_unsigned_u8(v) {
            Some(n) => Some(n),
            None => {
                return None;
            },
        },
        None => None,
    };
    let install_date = match read_number(d, "INSTALLDATE") {
        Some(n) => n,
        None => {
            return None;
        },
    };
    let size = match d.get("SIZE") {
        Some(v) => Some(v),
        None => d.get("ISIZE"),
    };
    let isize = match size {
        Some(v) => match parse_unsigned(v) {
            Some(n) => Some(n),
            None => {
                return None;
            },
        },
        None => None,
    };
    let csize = match read_number(d, "CSIZE") {
        Some(n) => n,
        None => {
            return None;
        },
    };
    let validation = match d.get("VALIDATION") {
        Some(v) => match Validation::from_str(take_first_line(v)) {
            Ok(x) => Some(x),
            Err(_) => {
                return None;
            },
        },
        None => None,
    };
    let md5sum = match d.get("MD5SUM") {
        Some(v) => match parse_digest::<24>(v) {
            Some(a) => Some(a),
            None => {
                return None;
            },
        },
        None => None,
    };
    let sha256sum = match d.get("SHA256SUM") {
        Some(v) => match parse_digest::<48>(v) {
            Some(a) => Some(a),
            None => {
                return None;
            },
        },
        None => None,
    };
    let xdata = match d.get("XDATA") {
        Some(v) => match XData::from_str(v) {
            Ok(x) => Some(x),
            Err(_) => {
                return None;
            },
        },
        None => None,
    };
    let f = Fields {
        base,
        name,
        version,
        arch,
        reason,
        install_date,
        validation,
        packager,
        isize,
        csize,
        build_date,
        url,
        license,
        desc,
        filename: d.get("FILENAME"),
        md5sum,
        sha256sum,
        pgpsig: d.get("PGPSIG"),
        provides: read_list(d, "PROVIDES"),
        depends: read_list(d, "DEPENDS"),
        optdepends: read_list(d, "OPTDEPENDS"),
        makedepends: read_list(d, "MAKEDEPENDS"),
        checkdepends: read_list(d, "CHECKDEPENDS"),
        groups: read_list(d, "GROUPS"),
        replaces: read_list(d, "REPLACES"),
        conflicts: read_list(d, "CONFLICTS"),
        xdata,
    };
    Some(f)
}

/// The handles of `hs` but for `own`, as a set.
pub fn id_set(hs: &Vec<Istr>, own: Istr) -> (set: HashSet<u32>)
    ensures
        forall|id: u32|
            set@.contains(id) <==> id != own.id && exists|k: int|
                0 <= k < hs@.len() && (#[trigger] hs@[k]).id == id,
{
    broadcast use group_hash_axioms;

    let mut set: HashSet<u32> = HashSet::new();
    let mut i: usize = 0;
    while i < hs.len()
        invariant
            i <= hs@.len(),
            forall|id: u32|
                set@.contains(id) <==> id != own.id && exists|k: int|
                    0 <= k < i && (#[trigger] hs@[k]).id == id,
        decreases hs@.len() - i,
    {
        let h = hs[i];
        if h.id != own.id {
            set.insert(h.id);
        }
        i = i + 1;
    }
    set
}

/// The texts of a set of handles made by `id_set` are the texts of the list
/// but for the text of the handle left out.
pub proof fn lemma_names_of_id_set(
    pool: Seq<Seq<char>>,
    hs: Seq<Istr>,
    own: Istr,
    ids: Set<u32>,
)
    requires
        crate::db::pool::distinct(pool),
        all_known(pool, hs),
        own.id < pool.len(),
        forall|id: u32|
            ids.contains(id) <==> id != own.id && exists|k: int|
                0 <= k < hs.len() && (#[trigger] hs[k]).id == id,
    ensures
        names_of(pool, ids) == texts_of(pool, hs).to_set().remove(pool[own.id as int]),
{
    let left = names_of(pool, ids);
    let texts = texts_of(pool, hs);
    let right = texts.to_set().remove(pool[own.id as int]);
    assert forall|s: Seq<char>| left.contains(s) implies right.contains(s) by {
        let id = choose|id: u32| ids.contains(id) && id < pool.len() && pool[id as int] == s;
        let k = choose|k: int| 0 <= k < hs.len() && (#[trigger] hs[k]).id == id;
        assert(texts[k] == s);
    }
    assert forall|s: Seq<char>| right.contains(s) implies left.contains(s) by {
        let k = choose|k: int| 0 <= k < texts.len() && texts[k] == s;
        let id = hs[k].id;
        assert(ids.contains(id));
    }
    assert(left =~= right);
}

/// Handles of a list that may be missing keep their texts when the pool
/// grows.
pub proof fn lemma_opt_texts_stay(
    later: Seq<Seq<char>>,
    earlier: Seq<Seq<char>>,
    hs: Option<Vec<Istr>>,
)
    requires
        extends(later, earlier),
        opt_all_known(earlier, hs),
    ensures
        opt_all_known(later, hs),
        opt_texts(later, hs) == opt_texts(earlier, hs),
{
    if let Some(v) = hs {
        lemma_texts_stay(later, earlier, v@);
    }
}

/// Interns every string of `items`, where there is a list.
pub fn intern_opt_list(pool: &mut Pool, items: &Option<Vec<&str>>) -> (r: Option<Vec<Istr>>)
    requires
        old(pool)@.len() + opt_items(opt_strs(*items)).len() <= pool_limit(),
    ensures
        final(pool).wf(),
        extends(final(pool)@, old(pool)@),
        final(pool)@ == after_interns(old(pool)@, opt_items(opt_strs(*items))),
        opt_all_known(final(pool)@, r),
        opt_texts(final(pool)@, r) == opt_strs(*items),
{
    proof {
        use_type_invariant(&*pool);
        lemma_extends_reflexive(pool@);
    }
    match items {
        Some(v) => Some(intern_list(pool, v)),
        None => None,
    }
}

/// The length of a list that may be missing.
fn list_len(l: &Option<Vec<&str>>) -> (n: u128)
    ensures
        n == opt_items(opt_strs(*l)).len(),
        n <= usize::MAX,
{
    match l {
        Some(v) => v.len() as u128,
        None => 0,
    }
}

/// Counts the texts that the fields put into the pool.
pub fn count_needed(f: &Fields<'_>) -> (n: u128)
    ensures
        n == f.texts().len(),
{
    let one_a: u128 = if f.filename.is_some() {
        1
    } else {
        0
    };
    let one_b: u128 = if f.pgpsig.is_some() {
        1
    } else {
        0
    };
    6 + f.license.len() as u128 + one_a + one_b + list_len(&f.provides) + list_len(&f.depends)
        + list_len(&f.optdepends) + list_len(&f.makedepends) + list_len(&f.checkdepends)
        + list_len(&f.groups) + list_len(&f.replaces) + list_len(&f.conflicts)
}

/// The pool holds what `start` holds after `done` and then `part` were
/// interned, where it held what `start` holds after `done` before `part` was.
proof fn lemma_stage(
    start: Seq<Seq<char>>,
    done: Seq<Seq<char>>,
    part: Seq<Seq<char>>,
    before: Seq<Seq<char>>,
    after: Seq<Seq<char>>,
)
    requires
        before == after_interns(start, done),
        after == after_interns(before, part),
    ensures
        after == after_interns(start, done + part),
        after.len() <= start.len() + (done + part).len(),
{
    lemma_after_interns_joined(start, done, part);
    lemma_after_interns_len(start, done + part);
}

/// The six texts that every record has.
pub open spec fn six_texts(f: Fields<'_>) -> Seq<Seq<char>> {
    seq![f.base@, f.name@, f.version@, f.packager@, f.url@, f.desc@]
}

/// The handles of the texts of a record.
pub struct Handles {
    pub base: Istr,
    pub name: Istr,
    pub version: Istr,
    pub packager: Istr,
    pub url: Istr,
    pub desc: Istr,
    pub license: Vec<Istr>,
    pub filename: Option<Istr>,
    pub pgpsig: Option<Istr>,
    pub provides: Option<Vec<Istr>>,
    pub depends: Option<Vec<Istr>>,
    pub optdepends: Option<Vec<Istr>>,
    pub makedepends: Option<Vec<Istr>>,
    pub checkdepends: Option<Vec<Istr>>,
    pub groups: Option<Vec<Istr>>,
    pub replaces: Option<Vec<Istr>>,
    pub conflicts: Option<Vec<Istr>>,
}

impl Handles {
    /// `pool` gave out every handle, and each stands for the text of its
    /// field in `f`.
    pub open spec fn shows(&self, pool: Seq<Seq<char>>, f: Fields<'_>) -> bool {
        &&& self.base.id < pool.len() && pool[self.base.id as int] == f.base@
        &&& self.name.id < pool.len() && pool[self.name.id as int] == f.name@
        &&& self.version.id < pool.len() && pool[self.version.id as int] == f.version@
        &&& self.packager.id < pool.len() && pool[self.packager.id as int] == f.packager@
        &&& self.url.id < pool.len() && pool[self.url.id as int] == f.url@
        &&& self.desc.id < pool.len() && pool[self.desc.id as int] == f.desc@
        &&& all_known(pool, self.license@) && texts_of(pool, self.license@) == strs_view(
            f.license@,
        )
        &&& opt_known(pool, self.filename) && opt_text(pool, self.filename) == opt_str(f.filename)
        &&& opt_known(pool, self.pgpsig) && opt_text(pool, self.pgpsig) == opt_str(f.pgpsig)
        &&& opt_all_known(pool, self.provides) && opt_texts(pool, self.provides) == opt_strs(
            f.provides,
        )
        &&& opt_all_known(pool, self.depends) && opt_texts(pool, self.depends) == opt_strs(
            f.depends,
        )
        &&& opt_all_known(pool, self.optdepends) && opt_texts(pool, self.optdepends) == opt_strs(
            f.optdepends,
        )
        &&& opt_all_known(pool, self.makedepends) && opt_texts(pool, self.makedepends)
            == opt_strs(f.makedepends)
        &&& opt_all_known(pool, self.checkdepends) && opt_texts(pool, self.checkdepends)
            == opt_strs(f.checkdepends)
        &&& opt_all_known(pool, self.groups) && opt_texts(pool, self.groups) == opt_strs(f.groups)
        &&& opt_all_known(pool, self.replaces) && opt_texts(pool, self.replaces) == opt_strs(
            f.replaces,
        )
        &&& opt_all_known(pool, self.conflicts) && opt_texts(pool, self.conflicts) == opt_strs(
            f.conflicts,
        )
    }
}

/// Puts the texts of the fields into the pool, in their order.
pub fn intern_texts(pool: &mut Pool, f: &Fields<'_>) -> (h: Handles)
    requires
        old(pool)@.len() + f.texts().len() <= pool_limit(),
    ensures
        final(pool).wf(),
        extends(final(pool)@, old(pool)@),
        final(pool)@ == after_interns(old(pool)@, f.texts()),
        h.shows(final(pool)@, *f),
{
    let ghost stage0 = pool@;
    let six: Vec<&str> = vec![f.base, f.name, f.version, f.packager, f.url, f.desc];
    proof {
        assert(strs_view(six@) =~= six_texts(*f));
    }
    let firsts = intern_list(pool, &six);
    let ghost stage1 = pool@;
    let ghost done1 = six_texts(*f);
    proof {
        lemma_after_interns_len(stage0, done1);
        assert(texts_of(stage1, firsts@)[0] == six_texts(*f)[0]);
        assert(texts_of(stage1, firsts@)[1] == six_texts(*f)[1]);
        assert(texts_of(stage1, firsts@)[2] == six_texts(*f)[2]);
        assert(texts_of(stage1, firsts@)[3] == six_texts(*f)[3]);
        assert(texts_of(stage1, firsts@)[4] == six_texts(*f)[4]);
        assert(texts_of(stage1, firsts@)[5] == six_texts(*f)[5]);
    }
    let base = firsts[0];
    let name = firsts[1];
    let version = firsts[2];
    let packager = firsts[3];
    let url = firsts[4];
    let desc = firsts[5];
    let license = intern_list(pool, &f.license);
    let ghost stage2 = pool@;
    let ghost done2 = done1 + strs_view(f.license@);
    proof {
        lemma_stage(stage0, done1, strs_view(f.license@), stage1, stage2);
    }
    let filename = intern_opt(pool, f.filename);
    let ghost stage3 = pool@;
    let ghost done3 = done2 + opt_item(opt_str(f.filename));
    proof {
        lemma_stage(stage0, done2, opt_item(opt_str(f.filename)), stage2, stage3);
    }
    let pgpsig = intern_opt(pool, f.pgpsig);
    let ghost stage4 = pool@;
    let ghost done4 = done3 + opt_item(opt_str(f.pgpsig));
    proof {
        lemma_stage(stage0, done3, opt_item(opt_str(f.pgpsig)), stage3, stage4);
    }
    let provides = intern_opt_list(pool, &f.provides);
    let ghost stage5 = pool@;
    let ghost done5 = done4 + opt_items(opt_strs(f.provides));
    proof {
        lemma_stage(stage0, done4, opt_items(opt_strs(f.provides)), stage4, stage5);
    }
    let depends = intern_opt_list(pool, &f.depends);
    let ghost stage6 = pool@;
    let ghost done6 = done5 + opt_items(opt_strs(f.depends));
    proof {
        lemma_stage(stage0, done5, opt_items(opt_strs(f.depends)), stage5, stage6);
    }
    let optdepends = intern_opt_list(pool, &f.optdepends);
    let ghost stage7 = pool@;
    let ghost done7 = done6 + opt_items(opt_strs(f.optdepends));
    proof {
        lemma_stage(stage0, done6, opt_items(opt_strs(f.optdepends)), stage6, stage7);
    }
    let makedepends = intern_opt_list(pool, &f.makedepends);
    let ghost stage8 = pool@;
    let ghost done8 = done7 + opt_items(opt_strs(f.makedepends));
    proof {
        lemma_stage(stage0, done7, opt_items(opt_strs(f.makedepends)), stage7, stage8);
    }
    let checkdepends = intern_opt_list(pool, &f.checkdepends);
    let ghost stage9 = pool@;
    let ghost done9 = done8 + opt_items(opt_strs(f.checkdepends));
    proof {
        lemma_stage(stage0, done8, opt_items(opt_strs(f.checkdepends)), stage8, stage9);
    }
    let groups = intern_opt_list(pool, &f.groups);
    let ghost stage10 = pool@;
    let ghost done10 = done9 + opt_items(opt_strs(f.groups));
    proof {
        lemma_stage(stage0, done9, opt_items(opt_strs(f.groups)), stage9, stage10);
    }
    let replaced = intern_opt_list(pool, &f.replaces);
    let ghost stage11 = pool@;
    let ghost done11 = done10 + opt_items(opt_strs(f.replaces));
    proof {
        lemma_stage(stage0, done10, opt_items(opt_strs(f.replaces)), stage10, stage11);
    }
    let conflicts = intern_opt_list(pool, &f.conflicts);
    let ghost stage12 = pool@;
    let ghost done12 = done11 + opt_items(opt_strs(f.conflicts));
    proof {
        lemma_stage(stage0, done11, opt_items(opt_strs(f.conflicts)), stage11, stage12);
    }
    proof {
        lemma_opt_texts_stay(stage12, stage11, replaced);
        lemma_extends_transitive(stage12, stage11, stage10);
        lemma_opt_texts_stay(stage12, stage10, groups);
        lemma_extends_transitive(stage12, stage10, stage9);
        lemma_opt_texts_stay(stage12, stage9, checkdepends);
        lemma_extends_transitive(stage12, stage9, stage8);
        lemma_opt_texts_stay(stage12, stage8, makedepends);
        lemma_extends_transitive(stage12, stage8, stage7);
        lemma_opt_texts_stay(stage12, stage7, optdepends);
        lemma_extends_transitive(stage12, stage7, stage6);
        lemma_opt_texts_stay(stage12, stage6, depends);
        lemma_extends_transitive(stage12, stage6, stage5);
        lemma_opt_texts_stay(stage12, stage5, provides);
        lemma_extends_transitive(stage12, stage5, stage4);
        if let Some(h) = pgpsig {
            lemma_text_stays(stage12, stage4, h);
        }
        lemma_extends_transitive(stage12, stage4, stage3);
        if let Some(h) = filename {
            lemma_text_stays(stage12, stage3, h);
        }
        lemma_extends_transitive(stage12, stage3, stage2);
        lemma_texts_stay(stage12, stage2, license@);
        lemma_extends_transitive(stage12, stage2, stage1);
        lemma_text_stays(stage12, stage1, desc);
        lemma_text_stays(stage12, stage1, url);
        lemma_text_stays(stage12, stage1, packager);
        lemma_text_stays(stage12, stage1, version);
        lemma_text_stays(stage12, stage1, name);
        lemma_text_stays(stage12, stage1, base);
        lemma_extends_transitive(stage12, stage1, stage0);
    }
    Handles {
        base,
        name,
        version,
        packager,
        url,
        desc,
        license,
        filename,
        pgpsig,
        provides,
        depends,
        optdepends,
        makedepends,
        checkdepends,
        groups,
        replaces: replaced,
        conflicts,
    }
}

/// Puts the texts of the fields into the pool and makes the package.
pub fn intern_fields(pool: &mut Pool, f: &Fields<'_>) -> (p: Package)
    requires
        old(pool)@.len() + f.texts().len() <= pool_limit(),
    ensures
        final(pool).wf(),
        extends(final(pool)@, old(pool)@),
        final(pool)@ == after_interns(old(pool)@, f.texts()),
        p.wf(final(pool)@),
        p.record(final(pool)@) == f.record(),
{
    let h = intern_texts(pool, f);
    let replaces = match &h.replaces {
        Some(v) => {
            let set = id_set(v, h.name);
            proof {
                lemma_names_of_id_set(pool@, v@, h.name, set@);
            }
            Some(set)
        },
        None => None,
    };
    Package {
        base: h.base,
        name: h.name,
        version: h.version,
        arch: f.arch,
        reason: f.reason,
        install_date: f.install_date,
        validation: f.validation,
        packager: h.packager,
        isize: f.isize,
        csize: f.csize,
        build_date: f.build_date,
        url: h.url,
        license: h.license,
        desc: h.desc,
        filename: h.filename,
        md5sum: f.md5sum,
        sha256sum: f.sha256sum,
        pgpsig: h.pgpsig,
        provides: h.provides,
        depends: h.depends,
        optdepends: h.optdepends,
        makedepends: h.makedepends,
        checkdepends: h.checkdepends,
        groups: h.groups,
        replaces,
        conflicts: h.conflicts,
        xdata: f.xdata,
    }
}

/// The record that the descriptor text `s` makes, where it makes one.
pub open spec fn text_record(s: Seq<char>) -> Option<Record> {
    match descriptor(s) {
        Some(d) => record(d),
        None => None,
    }
}

/// A pool that holds `pool` takes the record of the descriptor text `s`: the
/// text is a descriptor, its entries make a record, and the pool has a handle
/// left for each text of the record.
pub open spec fn accepted(pool: Seq<Seq<char>>, s: Seq<char>) -> bool {
    text_record(s) is Some && pool.len() + interned_texts(descriptor(s).unwrap()).len()
        <= pool_limit()
}

impl Package {
    /// Reads the descriptor `s` and puts its texts into `pool`. A text that
    /// is rejected leaves the pool unchanged.
    pub fn from_str(pool: &mut Pool, s: &str) -> (r: Result<Package, ()>)
        ensures
            final(pool).wf(),
            extends(final(pool)@, old(pool)@),
            r is Ok <==> accepted(old(pool)@, s@),
            match r {
                Ok(p) => {
                    &&& final(pool)@ == after_interns(
                        old(pool)@,
                        interned_texts(descriptor(s@).unwrap()),
                    )
                    &&& p.wf(final(pool)@)
                    &&& text_record(s@) == Some(p.record(final(pool)@))
                    &&& p.md5sum matches Some(a) ==> a@.len() == 24
                    &&& p.sha256sum matches Some(a) ==> a@.len() == 48
                },
                Err(_) => final(pool)@ == old(pool)@,
            },
    {
        proof {
            use_type_invariant(&*pool);
            lemma_extends_reflexive(pool@);
        }
        let d = match parse_to_map(s) {
            Ok(d) => d,
            Err(_) => {
                return Err(());
            },
        };
        let f = match read_fields(&d) {
            Some(f) => f,
            None => {
                return Err(());
            },
        };
        let need = count_needed(&f);
        let held = pool.len() as u128;
        if need > 4294967295u128 || held > 4294967295u128 - need {
            return Err(());
        }
        Ok(intern_fields(pool, &f))
    }
}

/// A package keeps its content when the pool grows.
pub proof fn lemma_package_stays(p: Package, later: Seq<Seq<char>>, earlier: Seq<Seq<char>>)
    requires
        extends(later, earlier),
        p.wf(earlier),
    ensures
        p.wf(later),
        p.record(later) == p.record(earlier),
{
    lemma_texts_stay(later, earlier, p.license@);
    lemma_opt_texts_stay(later, earlier, p.provides);
    lemma_opt_texts_stay(later, earlier, p.depends);
    lemma_opt_texts_stay(later, earlier, p.optdepends);
    lemma_opt_texts_stay(later, earlier, p.makedepends);
    lemma_opt_texts_stay(later, earlier, p.checkdepends);
    lemma_opt_texts_stay(later, earlier, p.groups);
    lemma_opt_texts_stay(later, earlier, p.conflicts);
    lemma_text_stays(later, earlier, p.base);
    lemma_text_stays(later, earlier, p.name);
    lemma_text_stays(later, earlier, p.version);
    lemma_text_stays(later, earlier, p.packager);
    lemma_text_stays(later, earlier, p.url);
    lemma_text_stays(later, earlier, p.desc);
    if let Some(h) = p.filename {
        lemma_text_stays(later, earlier, h);
    }
    if let Some(h) = p.pgpsig {
        lemma_text_stays(later, earlier, h);
    }
    if let Some(set) = p.replaces {
        assert forall|id: u32| #[trigger] set@.contains(id) implies id < later.len()
            && later[id as int] == earlier[id as int] by {
            lemma_text_stays(later, earlier, Istr { id });
        }
        assert(names_of(later, set@) =~= names_of(earlier, set@));
    }
}

/// The keys that a record reads.
pub open spec fn known_keys() -> Seq<Seq<char>> {
    seq![
        "BASE"@,
        "NAME"@,
        "VERSION"@,
        "ARCH"@,
        "REASON"@,
        "INSTALLDATE"@,
        "VALIDATION"@,
        "PACKAGER"@,
        "SIZE"@,
        "ISIZE"@,
        "CSIZE"@,
        "BUILDDATE"@,
        "URL"@,
        "LICENSE"@,
        "DESC"@,
        "FILENAME"@,
        "MD5SUM"@,
        "SHA256SUM"@,
        "PGPSIG"@,
        "PROVIDES"@,
        "DEPENDS"@,
        "OPTDEPENDS"@,
        "MAKEDEPENDS"@,
        "CHECKDEPENDS"@,
        "GROUPS"@,
        "REPLACES"@,
        "CONFLICTS"@,
        "XDATA"@,
    ]
}

/// Every key of the entries is one that a record reads.
pub open spec fn only_known_keys(d: Seq<EntryView>) -> bool {
    forall|k: int| 0 <= k < d.len() ==> known_keys().contains((#[trigger] d[k]).key)
}

/// Whether a descriptor holds only keys that a record reads. A descriptor
/// that holds another key was written for a later form of the records.
pub fn has_only_known_keys(d: &Descriptor<'_>) -> (r: bool)
    ensures
        r == only_known_keys(d@),
{
    let keys: Vec<&str> = vec![
        "BASE",
        "NAME",
        "VERSION",
        "ARCH",
        "REASON",
        "INSTALLDATE",
        "VALIDATION",
        "PACKAGER",
        "SIZE",
        "ISIZE",
        "CSIZE",
        "BUILDDATE",
        "URL",
        "LICENSE",
        "DESC",
        "FILENAME",
        "MD5SUM",
        "SHA256SUM",
        "PGPSIG",
        "PROVIDES",
        "DEPENDS",
        "OPTDEPENDS",
        "MAKEDEPENDS",
        "CHECKDEPENDS",
        "GROUPS",
        "REPLACES",
        "CONFLICTS",
        "XDATA",
    ];
    proof {
        assert(strs_view(keys@) =~= known_keys());
    }
    let mut k: usize = 0;
    while k < d.len()
        invariant
            k <= d@.len(),
            strs_view(keys@) == known_keys(),
            forall|j: int| 0 <= j < k ==> known_keys().contains((#[trigger] d@[j]).key),
        decreases d@.len() - k,
    {
        if !crate::config::contains_str(&keys, d.key(k)) {
            return false;
        }
        k = k + 1;
    }
    true
}

} // verus!
