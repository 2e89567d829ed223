//! What holds of the data that well-known apps keep at well-known places.

use vstd::prelude::*;

use crate::attribution::model::{ClaimView, EntryKind, EnvView, EvidenceTier, OwnerView};
use crate::attribution::path_laws::law_stems_and_endings;
use crate::disk::DiskView;
use crate::fspath::child;
use crate::seqs::lemma_picked;
use crate::text_laws::{free_of, lemma_first_place};

use super::candidates::{apple_data_in, cloud_dir, photo_library, picked, AppleDataView};
use super::curated::{apple_name, apple_places, provider_app};
use super::linkers::Groups;
use super::{app_axis, data_claims, with_apple};

verus! {

/// Whether the claims hold one of an app on its data at a path.
pub open spec fn data_of(r: Seq<ClaimView>, at: Seq<Seq<char>>, id: Seq<char>) -> bool {
    exists|j: int|
        0 <= j < r.len() && (#[trigger] r[j]).path == at && r[j].owner == id && r[j].kind
            == EntryKind::Data && r[j].tier == EvidenceTier::Exact && !r[j].baseline
}

proof fn lemma_data(
    env: EnvView,
    disk: DiskView,
    groups: Groups,
    observed: Seq<(Seq<char>, Seq<Seq<char>>)>,
    i: int,
)
    requires
        0 <= i < apple_data_in(env, disk).len(),
    ensures
        data_of(
            app_axis(env, disk, groups, observed).1,
            apple_data_in(env, disk)[i].path,
            apple_data_in(env, disk)[i].bundle_id,
        ),
{
    let r = app_axis(env, disk, groups, observed).1;
    let d = data_claims(apple_data_in(env, disk));
    let n = r.len() - d.len();
    assert(r[n + i] == d[i]);
}

/// What Apple's apps keep in the home directory is theirs.
pub proof fn law_data_of_apples_apps(
    env: EnvView,
    disk: DiskView,
    groups: Groups,
    observed: Seq<(Seq<char>, Seq<Seq<char>>)>,
)
    ensures
        ({
            let r = app_axis(env, disk, groups, observed).1;
            let h = env.home;
            &&& data_of(r, child(h, "Library/Mail"@), "com.apple.mail"@)
            &&& data_of(r, child(h, "Library/Messages"@), "com.apple.MobileSMS"@)
            &&& data_of(r, child(h, "Music/Music"@), "com.apple.Music"@)
            &&& data_of(r, child(h, "Movies/TV"@), "com.apple.TV"@)
            &&& data_of(r, child(h, "Library/Mobile Documents"@), "com.apple.finder"@)
            &&& data_of(r, child(h, "Library/Safari"@), "com.apple.Safari"@)
            &&& data_of(r, child(h, "Library/Developer"@), "com.apple.dt.Xcode"@)
        }),
{
    let p = apple_places();
    let d = apple_data_in(env, disk);
    assert forall|i: int| 0 <= i < p.len() implies (#[trigger] d[i]).path == child(env.home, p[i].1)
        && d[i].bundle_id == p[i].0 by {}
    lemma_data(env, disk, groups, observed, 0);
    lemma_data(env, disk, groups, observed, 1);
    lemma_data(env, disk, groups, observed, 2);
    lemma_data(env, disk, groups, observed, 3);
    lemma_data(env, disk, groups, observed, 4);
    lemma_data(env, disk, groups, observed, 5);
    lemma_data(env, disk, groups, observed, 6);
}

/// Photo libraries in the picture directory are the photo app's.
pub proof fn law_photo_libraries(
    env: EnvView,
    disk: DiskView,
    groups: Groups,
    observed: Seq<(Seq<char>, Seq<Seq<char>>)>,
    e: int,
    stem: Seq<char>,
)
    requires
        disk.list(child(env.home, "Pictures"@)) is Some,
        0 <= e < disk.list(child(env.home, "Pictures"@))->0.len(),
        disk.list(child(env.home, "Pictures"@))->0[e].0 == stem + ".photoslibrary"@,
        stem.len() > 0,
    ensures
        data_of(
            app_axis(env, disk, groups, observed).1,
            child(child(env.home, "Pictures"@), stem + ".photoslibrary"@),
            "com.apple.Photos"@,
        ),
{
    reveal_strlit(".photoslibrary");
    reveal_strlit("photoslibrary");
    let dir = child(env.home, "Pictures"@);
    let l = disk.list(dir)->0;
    law_stems_and_endings(stem, "photoslibrary"@);
    assert(stem + seq!['.'] + "photoslibrary"@ =~= stem + ".photoslibrary"@);
    let f = photo_library(dir);
    let k = lemma_picked(l, f, e);
    let a = apple_places().len();
    assert(apple_data_in(env, disk)[a + k] == picked(disk, dir, f)[k]);
    lemma_data(env, disk, groups, observed, a + k);
}

/// What a cloud provider keeps under its name and an account is the provider's.
pub proof fn law_cloud_storage(
    env: EnvView,
    disk: DiskView,
    groups: Groups,
    observed: Seq<(Seq<char>, Seq<Seq<char>>)>,
    e: int,
    provider: Seq<char>,
    account: Seq<char>,
    id: Seq<char>,
)
    requires
        disk.list(child(env.home, "Library/CloudStorage"@)) is Some,
        0 <= e < disk.list(child(env.home, "Library/CloudStorage"@))->0.len(),
        disk.list(child(env.home, "Library/CloudStorage"@))->0[e].0 == provider + seq!['-'] + account,
        (provider == "GoogleDrive"@ && id == "com.google.GoogleDrive"@) || (provider == "Dropbox"@
            && id == "com.getdropbox.dropbox"@) || (provider == "OneDrive"@ && id
            == "com.microsoft.OneDrive"@) || (provider == "Box"@ && id == "com.box.desktop"@),
    ensures
        data_of(
            app_axis(env, disk, groups, observed).1,
            child(
                child(env.home, "Library/CloudStorage"@),
                provider + seq!['-'] + account,
            ),
            id,
        ),
{
    reveal_strlit("GoogleDrive");
    reveal_strlit("Dropbox");
    reveal_strlit("OneDrive");
    reveal_strlit("Box");
    assert("GoogleDrive"@.len() == 11 && "Dropbox"@.len() == 7 && "OneDrive"@.len() == 8
        && "Box"@.len() == 3);
    assert(free_of(provider, '-'));
    let dir = child(env.home, "Library/CloudStorage"@);
    let pictures = child(env.home, "Pictures"@);
    let l = disk.list(dir)->0;
    lemma_first_place(provider, account, '-');
    assert(provider_app(provider) == Some(id));
    let f = cloud_dir(dir);
    let k = lemma_picked(l, f, e);
    let a = apple_places().len();
    let b = picked(disk, pictures, photo_library(pictures)).len();
    assert(apple_data_in(env, disk)[a + b + k] == picked(disk, dir, f)[k]);
    lemma_data(env, disk, groups, observed, a + b + k);
}

/// The owners stay as they are; of Apple's apps that keep data each is one of them afterwards.
pub proof fn law_apples_apps_are_owners(owners: Seq<OwnerView>, data: Seq<AppleDataView>, i: int)
    ensures
        owners.is_prefix_of(with_apple(owners, data)),
        0 <= i < data.len() && apple_name(data[i].bundle_id) is Some ==> exists|j: int|
            0 <= j < with_apple(owners, data).len() && (#[trigger] with_apple(owners, data)[j]).key
                == data[i].bundle_id,
    decreases data.len(),
{
    let r = with_apple(owners, data);
    if data.len() == 0 {
        assert(owners =~= owners.subrange(0, owners.len() as int));
    } else {
        let f = data.drop_last();
        let before = with_apple(owners, f);
        law_apples_apps_are_owners(owners, f, i);
        assert forall|k: int| 0 <= k < before.len() implies r[k] == #[trigger] before[k] by {}
        assert(owners =~= r.subrange(0, owners.len() as int)) by {
            assert forall|k: int| 0 <= k < owners.len() implies owners[k] == r[k] by {
                assert(before.subrange(0, owners.len() as int)[k] == before[k]);
            }
        }
        if 0 <= i < data.len() && apple_name(data[i].bundle_id) is Some {
            if i < f.len() {
                assert(f[i] == data[i]);
                let j = choose|j: int|
                    0 <= j < before.len() && (#[trigger] before[j]).key == data[i].bundle_id;
                assert(r[j] == before[j]);
            } else if exists|j: int|
                0 <= j < before.len() && (#[trigger] before[j]).key == data[i].bundle_id {
            } else {
                assert(r[before.len() as int].key == data[i].bundle_id);
            }
        }
    }
}

} // verus!
