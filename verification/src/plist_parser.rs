//! Decisions over already-decoded property-list fields: which of the
//! candidate fields name the application, its version and its bundle
//! identifier, and how the candidate icon names from the three historical
//! keys are merged.  Reading the archive and decoding the property list is
//! the collaborator's job; this module only gets plain values.

use vstd::prelude::*;
use vstd::utf8::encode_utf8;
use crate::text::{ends_with_bytes, spec_ends_with, spec_starts_with, starts_with_bytes};

verus! {

/// Metadata selected from a decoded property list.
#[derive(Debug, Clone)]
pub struct PlistInfo {
    /// Display name of the application.
    pub app_name: String,
    /// Version string of the application.
    pub app_version: String,
    /// Reverse-DNS bundle identifier.
    pub bundle_identifier: String,
    /// Candidate icon entry names, merged and deduplicated.
    pub icon_files: Vec<String>,
}

/// Which required field was absent from the property list.
#[derive(Clone, Copy, Debug, PartialEq, Eq, Structural)]
pub enum PlistFieldError {
    /// Neither the bundle-name field nor the display-name field was present.
    MissingName,
    /// Neither version field was present.
    MissingVersion,
    /// The bundle-identifier field was present in no form.
    MissingIdentifier,
}

/// Some element of `s` equals `x`.
pub open spec fn str_in(s: Seq<Seq<char>>, x: Seq<char>) -> bool {
    exists|i: int| 0 <= i < s.len() && s[i] == x
}

/// `acc` with `x` appended unless already present.
pub open spec fn add_if_missing(acc: Seq<Seq<char>>, x: Seq<char>) -> Seq<Seq<char>> {
    if str_in(acc, x) {
        acc
    } else {
        acc.push(x)
    }
}

/// `acc` with each element of `xs` appended in order unless present at its
/// turn.
pub open spec fn add_all_missing(acc: Seq<Seq<char>>, xs: Seq<Seq<char>>) -> Seq<Seq<char>>
    decreases xs.len(),
{
    if xs.len() == 0 {
        acc
    } else {
        add_all_missing(add_if_missing(acc, xs[0]), xs.skip(1))
    }
}

/// `s` with consecutive repeated elements collapsed to one.
pub open spec fn dedup_consecutive(s: Seq<Seq<char>>) -> Seq<Seq<char>>
    decreases s.len(),
{
    if s.len() <= 1 {
        s
    } else {
        let d = dedup_consecutive(s.drop_last());
        if s[s.len() - 2] == s.last() {
            d
        } else {
            d.push(s.last())
        }
    }
}

/// The merged candidate list: the array field's entries in order, then the
/// single-name field unless already present, then the primary-icon entries
/// each unless present at its turn, with consecutive repeats collapsed.
pub open spec fn spec_merge_icon_names(
    arr: Seq<Seq<char>>,
    single: Option<Seq<char>>,
    primary: Seq<Seq<char>>,
) -> Seq<Seq<char>> {
    let base = match single {
        Some(x) => add_if_missing(arr, x),
        None => arr,
    };
    dedup_consecutive(add_all_missing(base, primary))
}

/// Whether some element of `v` equals `x`.
fn vec_contains_string(v: &Vec<String>, x: &String) -> (r: bool)
    ensures
        r == str_in(v.deep_view(), x@),
{
    let mut i: usize = 0;
    while i < v.len()
        invariant
            i <= v@.len(),
            forall|j: int| 0 <= j < i ==> v.deep_view()[j] != x@,
        decreases v@.len() - i,
    {
        if v[i].eq(x) {
            proof {
                assert(v.deep_view()[i as int] == x@);
            }
            return true;
        }
        i = i + 1;
    }
    false
}

/// Merges the candidate icon names decoded from the three historical
/// property-list keys: the plain array, the single-name field, and the
/// primary-icon array, dropping names already present and collapsing
/// consecutive repeats.
pub fn extract_icon_names(
    icon_files: &Vec<String>,
    icon_file: Option<&String>,
    primary_icon_files: &Vec<String>,
) -> (r: Vec<String>)
    ensures
        r.deep_view() == spec_merge_icon_names(
            icon_files.deep_view(),
            match icon_file {
                Some(s) => Some(s@),
                None => None,
            },
            primary_icon_files.deep_view(),
        ),
{
    let mut icons: Vec<String> = Vec::new();
    let mut i: usize = 0;
    while i < icon_files.len()
        invariant
            i <= icon_files@.len(),
            icons.deep_view() == icon_files.deep_view().take(i as int),
        decreases icon_files@.len() - i,
    {
        let ghost before: Seq<Seq<char>> = icons.deep_view();
        icons.push(icon_files[i].clone());
        proof {
            assert(icons.deep_view() =~~= before.push(icon_files.deep_view()[i as int]));
            assert(icons.deep_view() =~~= icon_files.deep_view().take(i + 1));
        }
        i = i + 1;
    }
    proof {
        assert(icon_files.deep_view().take(icon_files@.len() as int) =~~= icon_files.deep_view());
    }
    if let Some(single) = icon_file {
        if !vec_contains_string(&icons, single) {
            let ghost before: Seq<Seq<char>> = icons.deep_view();
            icons.push(single.clone());
            proof {
                assert(icons.deep_view() =~~= before.push(single@));
            }
        }
    }
    let ghost base: Seq<Seq<char>> = icons.deep_view();
    proof {
        assert(primary_icon_files.deep_view().skip(0) =~~= primary_icon_files.deep_view());
    }
    let mut k: usize = 0;
    while k < primary_icon_files.len()
        invariant
            k <= primary_icon_files@.len(),
            add_all_missing(base, primary_icon_files.deep_view()) == add_all_missing(
                icons.deep_view(),
                primary_icon_files.deep_view().skip(k as int),
            ),
        decreases primary_icon_files@.len() - k,
    {
        let ghost before: Seq<Seq<char>> = icons.deep_view();
        let ghost rest: Seq<Seq<char>> = primary_icon_files.deep_view().skip(k as int);
        proof {
            assert(rest[0] == primary_icon_files.deep_view()[k as int]);
        }
        if !vec_contains_string(&icons, &primary_icon_files[k]) {
            icons.push(primary_icon_files[k].clone());
            proof {
                assert(icons.deep_view() =~~= before.push(rest[0]));
            }
        }
        proof {
            assert(icons.deep_view() == add_if_missing(before, rest[0]));
            assert(rest.skip(1) =~~= primary_icon_files.deep_view().skip(k + 1));
        }
        k = k + 1;
    }
    proof {
        assert(primary_icon_files.deep_view().skip(primary_icon_files@.len() as int)
            =~~= Seq::<Seq<char>>::empty());
        assert(add_all_missing(icons.deep_view(), Seq::<Seq<char>>::empty())
            == icons.deep_view());
    }
    let ghost merged: Seq<Seq<char>> = icons.deep_view();
    let mut result: Vec<String> = Vec::new();
    let mut t: usize = 0;
    while t < icons.len()
        invariant
            t <= icons@.len(),
            merged == icons.deep_view(),
            merged.len() == icons@.len(),
            result.deep_view() == dedup_consecutive(merged.take(t as int)),
        decreases icons@.len() - t,
    {
        let keep: bool = if t == 0 {
            true
        } else {
            !icons[t].eq(&icons[t - 1])
        };
        let ghost before: Seq<Seq<char>> = result.deep_view();
        if keep {
            result.push(icons[t].clone());
            proof {
                assert(result.deep_view() =~~= before.push(merged[t as int]));
            }
        }
        proof {
            let cur = merged.take(t + 1);
            assert(cur.drop_last() =~~= merged.take(t as int));
            assert(cur.last() == merged[t as int]);
            if t > 0 {
                assert(cur[t - 1] == merged[t - 1]);
                assert(merged[t - 1] == icons.deep_view()[t - 1]);
            }
        }
        t = t + 1;
    }
    proof {
        assert(merged.take(merged.len() as int) =~~= merged);
    }
    result
}

/// Selects the application's name, version and bundle identifier from the
/// decoded fields, with the historical fallbacks: the bundle name falls
/// back to the display name, the short version string to the build version.
/// Each required field missing in every form is an error, name first, then
/// version, then identifier.
pub fn select_plist_info(
    bundle_name: Option<String>,
    display_name: Option<String>,
    short_version: Option<String>,
    bundle_version: Option<String>,
    bundle_identifier: Option<String>,
    icon_files: Vec<String>,
) -> (r: Result<PlistInfo, PlistFieldError>)
    ensures
        (r == Err::<PlistInfo, PlistFieldError>(PlistFieldError::MissingName) <==> (bundle_name
            is None && display_name is None)),
        (r == Err::<PlistInfo, PlistFieldError>(PlistFieldError::MissingVersion) <==> ((
        bundle_name is Some || display_name is Some) && short_version is None && bundle_version
            is None)),
        (r == Err::<PlistInfo, PlistFieldError>(PlistFieldError::MissingIdentifier) <==> ((
        bundle_name is Some || display_name is Some) && (short_version is Some || bundle_version
            is Some) && bundle_identifier is None)),
        (r matches Ok(info) ==> {
            &&& info.app_name@ == (if bundle_name is Some {
                bundle_name->0@
            } else {
                display_name->0@
            })
            &&& info.app_version@ == (if short_version is Some {
                short_version->0@
            } else {
                bundle_version->0@
            })
            &&& bundle_identifier matches Some(b) && info.bundle_identifier@ == b@
            &&& info.icon_files.deep_view() == icon_files.deep_view()
        }),
{
    let app_name: String = match bundle_name {
        Some(n) => n,
        None => match display_name {
            Some(n) => n,
            None => {
                return Err(PlistFieldError::MissingName);
            },
        },
    };
    let app_version: String = match short_version {
        Some(v) => v,
        None => match bundle_version {
            Some(v) => v,
            None => {
                return Err(PlistFieldError::MissingVersion);
            },
        },
    };
    let bundle_identifier: String = match bundle_identifier {
        Some(b) => b,
        None => {
            return Err(PlistFieldError::MissingIdentifier);
        },
    };
    Ok(PlistInfo { app_name, app_version, bundle_identifier, icon_files })
}

/// The bytes of `Payload/`.
pub open spec fn payload_prefix() -> Seq<u8> {
    seq![0x50u8, 0x61u8, 0x79u8, 0x6Cu8, 0x6Fu8, 0x61u8, 0x64u8, 0x2Fu8]
}

/// The bytes of `.app/Info.plist`.
pub open spec fn info_plist_suffix() -> Seq<u8> {
    seq![
        0x2Eu8,
        0x61u8,
        0x70u8,
        0x70u8,
        0x2Fu8,
        0x49u8,
        0x6Eu8,
        0x66u8,
        0x6Fu8,
        0x2Eu8,
        0x70u8,
        0x6Cu8,
        0x69u8,
        0x73u8,
        0x74u8,
    ]
}

/// Whether an archive entry name is the application's property list:
/// inside the top-level payload directory, at the root of an application
/// bundle.
pub fn is_info_plist_path(name: &str) -> (r: bool)
    ensures
        r == (spec_starts_with(encode_utf8(name@), payload_prefix()) && spec_ends_with(
            encode_utf8(name@),
            info_plist_suffix(),
        )),
{
    let bytes: &[u8] = name.as_bytes();
    let mut prefix: Vec<u8> = Vec::new();
    prefix.push(0x50);
    prefix.push(0x61);
    prefix.push(0x79);
    prefix.push(0x6C);
    prefix.push(0x6F);
    prefix.push(0x61);
    prefix.push(0x64);
    prefix.push(0x2F);
    let mut suffix: Vec<u8> = Vec::new();
    suffix.push(0x2E);
    suffix.push(0x61);
    suffix.push(0x70);
    suffix.push(0x70);
    suffix.push(0x2F);
    suffix.push(0x49);
    suffix.push(0x6E);
    suffix.push(0x66);
    suffix.push(0x6F);
    suffix.push(0x2E);
    suffix.push(0x70);
    suffix.push(0x6C);
    suffix.push(0x69);
    suffix.push(0x73);
    suffix.push(0x74);
    proof {
        assert(prefix@ =~= payload_prefix());
        assert(suffix@ =~= info_plist_suffix());
    }
    starts_with_bytes(bytes, prefix.as_slice()) && ends_with_bytes(bytes, suffix.as_slice())
}

} // verus!
