use vstd::prelude::*;

verus! {

#[verifier::external_type_specification]
#[verifier::external_body]
pub struct ExOverride(ignore::overrides::Override);

/// Whether a list of ignored-file glob patterns compiles into a matcher.
pub uninterp spec fn ignore_compiles(patterns: Seq<Seq<char>>) -> bool;

/// The whitelist verdict of the matcher compiled from a pattern list, for a
/// path and a directory flag.
pub uninterp spec fn ignore_verdict(patterns: Seq<Seq<char>>, path: Seq<char>, is_dir: bool) -> bool;

/// The whitelist verdict of a compiled matcher value, for a path and a
/// directory flag.
pub uninterp spec fn override_verdict(
    m: ignore::overrides::Override,
    path: Seq<char>,
    is_dir: bool,
) -> bool;

/// Relies on ignore::overrides::OverrideBuilder and Override: globs carry
/// gitignore override semantics, the matcher is rooted at the filesystem root,
/// and a glob that does not parse is skipped, as is a comment or blank line.
/// Whether compilation succeeds, and every verdict of the compiled matcher,
/// are functions of the pattern list alone.
#[verifier::external_body]
pub(crate) fn compile_overrides(patterns: &Vec<String>) -> (r: Option<
    Box<ignore::overrides::Override>,
>)
    ensures
        r.is_some() == ignore_compiles(patterns.deep_view()),
        r is Some ==> forall|path: Seq<char>, is_dir: bool|
            #[trigger] override_verdict(*r.unwrap(), path, is_dir) == ignore_verdict(
                patterns.deep_view(),
                path,
                is_dir,
            ),
{
    let mut builder = ignore::overrides::OverrideBuilder::new("/");
    for pattern in patterns {
        builder.add(pattern).ok();
    }
    match builder.build() {
        Ok(m) => Some(Box::new(m)),
        Err(_) => None,
    }
}

/// Relies on ignore::overrides::Override::matched: the whitelist verdict is a
/// function of the matcher value, the path and the directory flag.
#[verifier::external_body]
pub(crate) fn matched_whitelist(
    m: &ignore::overrides::Override,
    path: &str,
    is_dir: bool,
) -> (r: bool)
    ensures
        r == override_verdict(*m, path@, is_dir),
{
    m.matched(path, is_dir).is_whitelist()
}

} // verus!
