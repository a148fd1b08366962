//! The records that cross the boundary to the caller: one package row of a
//! listing, and the terminal reply of one command.

use vstd::prelude::*;

verus! {

/// The text of an optional string.
pub open spec fn opt_text(o: Option<String>) -> Option<Seq<char>> {
    match o {
        Some(s) => Some(s@),
        None => None,
    }
}

/// One row of a package listing.
#[derive(Debug, Clone, PartialEq, Eq)]
pub struct WingetPackage {
    pub id: String,
    pub name: String,
    pub version: String,
    pub source: Option<String>,
    pub available_version: Option<String>,
}

/// The mathematical value of a [`WingetPackage`].
pub struct PackageView {
    pub id: Seq<char>,
    pub name: Seq<char>,
    pub version: Seq<char>,
    pub source: Option<Seq<char>>,
    pub available_version: Option<Seq<char>>,
}

impl View for WingetPackage {
    type V = PackageView;

    open spec fn view(&self) -> PackageView {
        PackageView {
            id: self.id@,
            name: self.name@,
            version: self.version@,
            source: opt_text(self.source),
            available_version: opt_text(self.available_version),
        }
    }
}

/// The values of a list of packages, in order.
pub open spec fn package_views(packages: Seq<WingetPackage>) -> Seq<PackageView> {
    Seq::new(packages.len(), |i: int| packages[i]@)
}

/// The terminal reply of one command.
#[derive(Debug, Clone, PartialEq, Eq)]
pub struct WingetCommandResult {
    pub success: bool,
    pub output: Option<String>,
    pub error: Option<String>,
    pub code: Option<i32>,
}

/// The mathematical value of a [`WingetCommandResult`].
pub struct ResultView {
    pub success: bool,
    pub output: Option<Seq<char>>,
    pub error: Option<Seq<char>>,
    pub code: Option<i32>,
}

impl ResultView {
    /// A successful reply carries no error text, and success is an exit
    /// code of 0.
    pub open spec fn consistent(self) -> bool {
        self.success ==> self.error is None && self.code == Some(0i32)
    }
}

impl View for WingetCommandResult {
    type V = ResultView;

    open spec fn view(&self) -> ResultView {
        ResultView {
            success: self.success,
            output: opt_text(self.output),
            error: opt_text(self.error),
            code: self.code,
        }
    }
}

} // verus!
