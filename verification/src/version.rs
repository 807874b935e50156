//! The version of the program, and the versions that configurations ask for.

use vstd::prelude::*;
use vstd::string::*;
use crate::config::error_of;

verus! {

/// How one version stands to another.
#[derive(Clone, Copy, Debug, PartialEq, Eq, Structural)]
pub enum VersionOrder {
    Less,
    Equal,
    Greater,
}

/// The version of the program.
pub open spec fn current_version() -> Seq<char> {
    "2.0.0"@
}

/// The version of the program.
pub fn version() -> (r: &'static str)
    ensures
        r@ == current_version(),
{
    "2.0.0"
}

/// How the version `a` stands to the version `b` by the rules of semantic
/// versioning, or why one of them is no version.
pub uninterp spec fn semver_order(a: Seq<char>, b: Seq<char>) -> Result<VersionOrder, Seq<char>>;

/// What a result with an order stands for.
pub open spec fn order_result(r: Result<VersionOrder, String>) -> Result<VersionOrder, Seq<char>> {
    match r {
        Ok(o) => Ok(o),
        Err(e) => Err(e@),
    }
}

/// `semver::Version::parse` on both texts, and `cmp` on the versions: their
/// order, or the message of the first that does not parse. A version is equal to itself.
#[verifier::external_body]
fn compare_versions(a: &str, b: &str) -> (r: Result<VersionOrder, String>)
    ensures
        order_result(r) == semver_order(a@, b@),
        a@ == b@ && r is Ok ==> r->Ok_0 == VersionOrder::Equal,
{
    let x = semver::Version::parse(a).map_err(|e| e.to_string())?;
    let y = semver::Version::parse(b).map_err(|e| e.to_string())?;
    Ok(
        match x.cmp(&y) {
            std::cmp::Ordering::Less => VersionOrder::Less,
            std::cmp::Ordering::Equal => VersionOrder::Equal,
            std::cmp::Ordering::Greater => VersionOrder::Greater,
        },
    )
}

/// How a version stands to that of the program.
pub fn version_cmp(version: &str) -> (r: Result<VersionOrder, String>)
    ensures
        order_result(r) == semver_order(version@, current_version()),
        version@ == current_version() && r is Ok ==> r->Ok_0 == VersionOrder::Equal,
{
    compare_versions(version, self::version())
}

/// Why a configuration that asks for the version `v` cannot be used, if it
/// cannot: it asks for a later one. What is no version asks for nothing.
pub open spec fn version_refusal(
    v: Seq<char>,
    order: Result<VersionOrder, Seq<char>>,
) -> Option<Seq<char>> {
    if order == Ok::<VersionOrder, Seq<char>>(VersionOrder::Greater) {
        Some(
            "hk version "@ + current_version() + " is less than the minimum required version "@ + v,
        )
    } else {
        None
    }
}

/// Whether a configuration that asks for the version `v` can be used, where
/// `order` is how `v` stands to the version of the program.
pub fn require_version(v: &str, order: Result<VersionOrder, String>) -> (r: Result<(), String>)
    ensures
        error_of(r) == version_refusal(v@, order_result(order)),
{
    match order {
        Ok(VersionOrder::Greater) => {
            let mut m = "hk version ".to_owned();
            m.append(version());
            m.append(" is less than the minimum required version ");
            m.append(v);
            Err(m)
        },
        _ => Ok(()),
    }
}

/// Whether a configuration that asks for the version `v` can be used.
pub fn version_cmp_or_bail(v: &str) -> (r: Result<(), String>)
    ensures
        error_of(r) == version_refusal(v@, semver_order(v@, current_version())),
        v@ == current_version() ==> r is Ok,
{
    let order = version_cmp(v);
    require_version(v, order)
}

/// A configuration is refused exactly where it asks for a later version, and the refusal
/// names both versions.
pub proof fn law_only_later_versions_are_refused(v: Seq<char>, order: Result<VersionOrder, Seq<char>>)
    ensures
        version_refusal(v, order) is Some <==> order is Ok && order->Ok_0 == VersionOrder::Greater,
        version_refusal(v, order) matches Some(m) ==> crate::text::has_text(m, v)
            && crate::text::has_text(m, current_version()),
{
    let a = "hk version "@;
    let b = " is less than the minimum required version "@;
    crate::text::lemma_stands_between(a + current_version() + b, v, seq![]);
    assert(a + current_version() + b + v + seq![] =~= a + current_version() + b + v);
    crate::text::lemma_stands_between(a, current_version(), b + v);
    assert(a + current_version() + (b + v) =~= a + current_version() + b + v);
}

} // verus!
