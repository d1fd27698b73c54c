//! Virtual file identities: an optional package coordinate and a path.

use vstd::prelude::*;
use std::str::FromStr;

verus! {

/// What a package coordinate is: namespace, name and the three version parts.
pub type CoordView = (Seq<char>, Seq<char>, u32, u32, u32);

/// What a file identity is: its package coordinate, if any, and its path.
pub type KeyView = (Option<CoordView>, Seq<char>);

/// A package coordinate `@namespace/name:major.minor.patch`.
#[derive(Clone, Debug, Hash)]
pub struct PackageCoord {
    pub namespace: String,
    pub name: String,
    pub major: u32,
    pub minor: u32,
    pub patch: u32,
}

impl View for PackageCoord {
    type V = CoordView;

    open spec fn view(&self) -> CoordView {
        (self.namespace@, self.name@, self.major, self.minor, self.patch)
    }
}

impl PackageCoord {
    /// Copies the coordinate field by field.
    pub fn duplicate(&self) -> (r: PackageCoord)
        ensures
            r@ == self@,
    {
        PackageCoord {
            namespace: self.namespace.clone(),
            name: self.name.clone(),
            major: self.major,
            minor: self.minor,
            patch: self.patch,
        }
    }

    /// Whether two coordinates name the same package version.
    pub fn same(&self, o: &PackageCoord) -> (r: bool)
        ensures
            r == (self@ == o@),
    {
        self.major == o.major && self.minor == o.minor && self.patch == o.patch
            && self.namespace == o.namespace && self.name == o.name
    }
}

/// What `PackageSpec::from_str` makes of a string: the coordinate, or nothing
/// where the string is no valid package specification.
pub uninterp spec fn parsed_coord(s: Seq<char>) -> Option<CoordView>;

/// The message that `PackageSpec::from_str` gives for a string it refuses.
pub uninterp spec fn parse_error_of(s: Seq<char>) -> Seq<char>;

/// Relies on typst's `PackageSpec::from_str`: it parses `@namespace/name:x.y.z`
/// and returns the parts, or an error message; both depend on the text alone.
#[verifier::external_body]
fn parse_package_spec(s: &str) -> (r: Result<PackageCoord, String>)
    ensures
        r is Ok <==> parsed_coord(s@) is Some,
        r is Ok ==> Some(r->Ok_0@) == parsed_coord(s@),
        r matches Err(m) ==> m@ == parse_error_of(s@),
{
    match typst::syntax::package::PackageSpec::from_str(s) {
        Ok(p) => Ok(PackageCoord {
            namespace: p.namespace.to_string(),
            name: p.name.to_string(),
            major: p.version.major,
            minor: p.version.minor,
            patch: p.version.patch,
        }),
        Err(e) => Err(e.to_string()),
    }
}

impl PackageCoord {
    /// Parses a host-supplied package specification; the error carries the
    /// parser's message.
    pub fn parse(s: &str) -> (r: Result<PackageCoord, String>)
        ensures
            r is Ok <==> parsed_coord(s@) is Some,
            r is Ok ==> Some(r->Ok_0@) == parsed_coord(s@),
        r matches Err(m) ==> m@ == parse_error_of(s@),
    {
        parse_package_spec(s)
    }
}

/// A virtual file identity. Two identities are equal when both fields are.
#[derive(Clone, Debug, Hash)]
pub struct FileKey {
    pub package: Option<PackageCoord>,
    pub path: String,
}

impl View for FileKey {
    type V = KeyView;

    open spec fn view(&self) -> KeyView {
        (
            match self.package {
                Some(c) => Some(c@),
                None => None,
            },
            self.path@,
        )
    }
}

impl FileKey {
    /// An identity outside any package.
    pub fn bare(path: String) -> (r: FileKey)
        ensures
            r@ == (None::<CoordView>, path@),
    {
        FileKey { package: None, path }
    }

    /// An identity inside the given package.
    pub fn in_package(coord: PackageCoord, path: String) -> (r: FileKey)
        ensures
            r@ == (Some(coord@), path@),
    {
        FileKey { package: Some(coord), path }
    }

    /// Copies the identity field by field.
    pub fn duplicate(&self) -> (r: FileKey)
        ensures
            r@ == self@,
    {
        let package = match &self.package {
            Some(c) => Some(c.duplicate()),
            None => None,
        };
        FileKey { package, path: self.path.clone() }
    }

    /// Whether two identities name the same file.
    pub fn same(&self, o: &FileKey) -> (r: bool)
        ensures
            r == (self@ == o@),
    {
        let same_package = match (&self.package, &o.package) {
            (Some(a), Some(b)) => a.same(b),
            (None, None) => true,
            _ => false,
        };
        same_package && self.path == o.path
    }
}

} // verus!
