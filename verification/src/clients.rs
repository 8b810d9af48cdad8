//! Client folders under a project root: the folder template, how a scanned
//! client is assessed, the order in which clients are listed, and the checks
//! made before a client is created, repaired or opened.

use vstd::prelude::*;

use crate::naming::texts;
use crate::order::{is_stable_order, key_views, stable_order};
use crate::text::{first_index, has_prefix, split_once, starts_with, text_eq, to_lowercase, unicode_lowercase};

verus! {

// ---------------------------------------------------------------------------
// The folder template
// ---------------------------------------------------------------------------

/// The folders of a client's template, parents before their children.
pub open spec fn template_dir_list() -> Seq<Seq<char>> {
    seq![
        "01_MEDIA"@,
        "01_MEDIA/010_VIDEO_PROXY"@,
        "01_MEDIA/020_VIDEO_RAW"@,
        "01_MEDIA/030_AUDIO_CLEAN"@,
        "01_MEDIA/040_AUDIO_RAW"@,
        "01_MEDIA/050_STILLS"@,
        "01_MEDIA/060_MUSIC"@,
        "02_EDIT"@,
        "03_EXPORTS"@,
        "03_EXPORTS/APPROVAL"@,
        "04_FINAL"@,
    ]
}

/// The top-level folders every client must have.
pub open spec fn required_dir_list() -> Seq<Seq<char>> {
    seq!["01_MEDIA"@, "02_EDIT"@, "03_EXPORTS"@, "04_FINAL"@]
}

/// The folders of a client's template, relative to the client folder.
pub fn template_dirs() -> (r: Vec<&'static str>)
    ensures
        r@.map_values(|d: &str| d@) == template_dir_list(),
{
    let r = vec![
        "01_MEDIA",
        "01_MEDIA/010_VIDEO_PROXY",
        "01_MEDIA/020_VIDEO_RAW",
        "01_MEDIA/030_AUDIO_CLEAN",
        "01_MEDIA/040_AUDIO_RAW",
        "01_MEDIA/050_STILLS",
        "01_MEDIA/060_MUSIC",
        "02_EDIT",
        "03_EXPORTS",
        "03_EXPORTS/APPROVAL",
        "04_FINAL",
    ];
    assert(r@.map_values(|d: &str| d@) =~= template_dir_list());
    r
}

fn required_dirs() -> (r: Vec<&'static str>)
    ensures
        r@.map_values(|d: &str| d@) == required_dir_list(),
{
    let r = vec!["01_MEDIA", "02_EDIT", "03_EXPORTS", "04_FINAL"];
    assert(r@.map_values(|d: &str| d@) =~= required_dir_list());
    r
}

// ---------------------------------------------------------------------------
// Assessing a scanned client
// ---------------------------------------------------------------------------

/// A folder directly inside a client folder, with the names of the folders
/// directly inside it.
pub struct ChildDir {
    pub name: String,
    pub subdirs: Vec<String>,
}

/// A folder directly under the project root, as scanned.
pub struct ClientListing {
    pub name: String,
    pub path: String,
    pub children: Vec<ChildDir>,
}

/// A client as the scan reports it.
pub struct ClientInfo {
    pub name: String,
    pub path: String,
    pub status: String,
    pub missing: Vec<String>,
}

/// Some child folder has the name `name`.
pub open spec fn has_child(children: Seq<ChildDir>, name: Seq<char>) -> bool {
    exists|i: int| 0 <= i < children.len() && (#[trigger] children[i]).name@ == name
}

/// The child folder `parent` holds a folder named `child`.
pub open spec fn has_subdir(children: Seq<ChildDir>, parent: Seq<char>, child: Seq<char>) -> bool {
    exists|i: int|
        0 <= i < children.len() && (#[trigger] children[i]).name@ == parent && texts(children[i].subdirs@).contains(child)
}

/// Whether a template folder (`parent` or `parent/child`) is present.
pub open spec fn dir_present(children: Seq<ChildDir>, dir: Seq<char>) -> bool {
    let k = first_index(dir, '/');
    if k >= 0 {
        has_child(children, dir.subrange(0, k)) && has_subdir(
            children,
            dir.subrange(0, k),
            dir.subrange(k + 1, dir.len() as int),
        )
    } else {
        has_child(children, dir)
    }
}

/// The folders of `dirs` that are not present, in order.
pub open spec fn missing_dirs(children: Seq<ChildDir>, dirs: Seq<Seq<char>>) -> Seq<Seq<char>>
    decreases dirs.len(),
{
    if dirs.len() == 0 {
        dirs
    } else if dir_present(children, dirs.last()) {
        missing_dirs(children, dirs.drop_last())
    } else {
        missing_dirs(children, dirs.drop_last()).push(dirs.last())
    }
}

/// The status of a client: `OK` when every required folder and every
/// template folder is present.
pub open spec fn client_status(children: Seq<ChildDir>) -> Seq<char> {
    if (forall|i: int| 0 <= i < required_dir_list().len() ==> has_child(children, #[trigger] required_dir_list()[i]))
        && missing_dirs(children, template_dir_list()).len() == 0 {
        "OK"@
    } else {
        "Missing folders"@
    }
}

fn child_named(children: &Vec<ChildDir>, name: &str) -> (r: Option<usize>)
    ensures
        match r {
            Some(i) => i < children.len() && children@[i as int].name@ == name@,
            None => !has_child(children@, name@),
        },
{
    let mut i: usize = 0;
    while i < children.len()
        invariant
            i <= children.len(),
            forall|j: int| 0 <= j < i ==> (#[trigger] children@[j]).name@ != name@,
        decreases children.len() - i,
    {
        if text_eq(children[i].name.as_str(), name) {
            return Some(i);
        }
        i = i + 1;
    }
    None
}

/// Whether a client folder holds a child folder named `child`.
pub fn has_dir(children: &Vec<ChildDir>, child: &str) -> (r: bool)
    ensures
        r == has_child(children@, child@),
{
    child_named(children, child).is_some()
}

fn contains_text(v: &Vec<String>, x: &str) -> (r: bool)
    ensures
        r == texts(v@).contains(x@),
{
    let mut i: usize = 0;
    while i < v.len()
        invariant
            i <= v.len(),
            forall|j: int| 0 <= j < i ==> (#[trigger] v@[j])@ != x@,
        decreases v.len() - i,
    {
        if text_eq(v[i].as_str(), x) {
            assert(texts(v@)[i as int] == x@);
            return true;
        }
        i = i + 1;
    }
    assert forall|j: int| 0 <= j < texts(v@).len() implies texts(v@)[j] != x@ by {
        assert(v@[j]@ != x@);
    }
    false
}

fn has_subdir_exec(children: &Vec<ChildDir>, parent: &str, child: &str) -> (r: bool)
    ensures
        r == has_subdir(children@, parent@, child@),
{
    let mut i: usize = 0;
    while i < children.len()
        invariant
            i <= children.len(),
            forall|j: int|
                0 <= j < i ==> !((#[trigger] children@[j]).name@ == parent@ && texts(children@[j].subdirs@).contains(child@)),
        decreases children.len() - i,
    {
        if text_eq(children[i].name.as_str(), parent) && contains_text(&children[i].subdirs, child) {
            return true;
        }
        i = i + 1;
    }
    false
}

fn is_dir_present(children: &Vec<ChildDir>, dir: &str) -> (r: bool)
    ensures
        r == dir_present(children@, dir@),
{
    match split_once(dir, '/') {
        Some((parent, child)) => {
            child_named(children, parent.as_str()).is_some() && has_subdir_exec(children, parent.as_str(), child.as_str())
        },
        None => child_named(children, dir).is_some(),
    }
}

/// The template folders missing from a client, in template order.
pub fn missing_template_dirs(children: &Vec<ChildDir>) -> (r: Vec<String>)
    ensures
        texts(r@) == missing_dirs(children@, template_dir_list()),
{
    let dirs = template_dirs();
    let ghost views = dirs@.map_values(|d: &str| d@);
    let mut r: Vec<String> = Vec::new();
    let mut i: usize = 0;
    while i < dirs.len()
        invariant
            i <= dirs.len(),
            views == template_dir_list(),
            views == dirs@.map_values(|d: &str| d@),
            texts(r@) == missing_dirs(children@, views.take(i as int)),
        decreases dirs.len() - i,
    {
        assert(views.take(i + 1).drop_last() =~= views.take(i as int));
        assert(views.take(i + 1).last() == dirs@[i as int]@);
        if !is_dir_present(children, dirs[i]) {
            let ghost before = texts(r@);
            r.push(dirs[i].to_owned());
            assert(texts(r@) =~= before.push(dirs@[i as int]@));
        }
        i = i + 1;
    }
    assert(views.take(dirs.len() as int) =~= views);
    r
}

/// The status of a client with these child folders.
pub fn status_of(children: &Vec<ChildDir>, missing: &Vec<String>) -> (r: &'static str)
    requires
        texts(missing@) == missing_dirs(children@, template_dir_list()),
    ensures
        r@ == client_status(children@),
{
    let required = required_dirs();
    let ghost views = required@.map_values(|d: &str| d@);
    let mut all = true;
    let mut i: usize = 0;
    while i < required.len()
        invariant
            i <= required.len(),
            views == required_dir_list(),
            views == required@.map_values(|d: &str| d@),
            all == forall|j: int| 0 <= j < i ==> has_child(children@, #[trigger] views[j]),
        decreases required.len() - i,
    {
        let found = child_named(children, required[i]).is_some();
        assert(views[i as int] == required@[i as int]@);
        all = all && found;
        i = i + 1;
    }
    if all && missing.len() == 0 {
        "OK"
    } else {
        "Missing folders"
    }
}

/// Whether a folder name marks the folder as not a client: it starts with
/// `XX`.
pub open spec fn is_excluded_name(name: Seq<char>) -> bool {
    has_prefix(name, "XX"@)
}

/// What the scan reports of a folder under the project root: nothing for
/// the `_logs` folder; `Not a client` for a folder whose name starts with
/// `XX`; otherwise its status and missing template folders.
pub open spec fn assessment(name: Seq<char>, children: Seq<ChildDir>) -> Option<(Seq<char>, Seq<Seq<char>>)> {
    if name == crate::log::LOG_DIR_NAME@ {
        None
    } else if is_excluded_name(name) {
        Some(("Not a client"@, Seq::empty()))
    } else {
        let missing = missing_dirs(children, template_dir_list());
        Some((client_status(children), missing))
    }
}

/// Assesses one scanned folder.
pub fn assess_client(listing: ClientListing) -> (r: Option<ClientInfo>)
    ensures
        match assessment(listing.name@, listing.children@) {
            None => r is None,
            Some((status, missing)) => r matches Some(info) && info.name == listing.name && info.path
                == listing.path && info.status@ == status && texts(info.missing@) == missing,
        },
{
    if text_eq(listing.name.as_str(), crate::log::LOG_DIR_NAME) {
        return None;
    }
    if starts_with(listing.name.as_str(), "XX") {
        let info = ClientInfo {
            name: listing.name,
            path: listing.path,
            status: "Not a client".to_owned(),
            missing: Vec::new(),
        };
        assert(texts(info.missing@) =~= Seq::<Seq<char>>::empty());
        return Some(info);
    }
    let missing = missing_template_dirs(&listing.children);
    let status = status_of(&listing.children, &missing);
    Some(ClientInfo { name: listing.name, path: listing.path, status: status.to_owned(), missing })
}

/// `info` is what the scan reports of `listing`, given its assessment.
pub open spec fn reports(listing: ClientListing, info: ClientInfo, status: Seq<char>, missing: Seq<Seq<char>>) -> bool {
    &&& info.name@ == listing.name@
    &&& info.path@ == listing.path@
    &&& info.status@ == status
    &&& texts(info.missing@) == missing
}

/// `infos` are the reports of the scanned folders `listings`, in order,
/// the `_logs` folder left out.
pub open spec fn reports_all(listings: Seq<ClientListing>, infos: Seq<ClientInfo>) -> bool
    decreases listings.len(),
{
    if listings.len() == 0 {
        infos.len() == 0
    } else {
        match assessment(listings.last().name@, listings.last().children@) {
            None => reports_all(listings.drop_last(), infos),
            Some((status, missing)) => infos.len() > 0 && reports(listings.last(), infos.last(), status, missing)
                && reports_all(listings.drop_last(), infos.drop_last()),
        }
    }
}

/// The keys by which clients are listed: their lowercased names.
pub open spec fn name_keys(infos: Seq<ClientInfo>) -> Seq<Seq<char>> {
    infos.map_values(|c: ClientInfo| unicode_lowercase(c.name@))
}

/// `sorted` lists `infos` in the stable order of their lowercased names.
pub open spec fn listed_in_name_order(infos: Seq<ClientInfo>, sorted: Seq<ClientInfo>) -> bool {
    exists|order: Seq<usize>|
        is_stable_order::<String>(name_keys(infos), order, infos.len()) && sorted == order.map_values(
            |i: usize| infos[i as int],
        )
}

/// The reports of scanned folders, in scan order.
pub fn collect_clients(listings: Vec<ClientListing>) -> (r: Vec<ClientInfo>)
    ensures
        reports_all(listings@, r@),
{
    let ghost all = listings@;
    let mut r: Vec<ClientInfo> = Vec::new();
    for listing in it: listings
        invariant
            it.seq() == all,
            reports_all(all.take(it.index()), r@),
    {
        let ghost i = it.index();
        assert(all.take(i + 1).drop_last() =~= all.take(i));
        assert(all.take(i + 1).last() == listing);
        let ghost before = r@;
        match assess_client(listing) {
            Some(info) => {
                r.push(info);
                assert(r@.drop_last() =~= before);
            },
            None => {},
        }
    }
    assert(all.take(all.len() as int) =~= all);
    r
}

/// Lists clients by lowercased name, keeping the scan order of equal names.
pub fn order_clients(infos: Vec<ClientInfo>) -> (r: Vec<ClientInfo>)
    ensures
        listed_in_name_order(infos@, r@),
{
    let n = infos.len();
    let mut keys: Vec<String> = Vec::new();
    let mut k: usize = 0;
    while k < n
        invariant
            n == infos.len(),
            k <= n,
            keys@.len() == k,
            key_views::<String>(keys@) == name_keys(infos@).take(k as int),
        decreases n - k,
    {
        let ghost before = keys@;
        keys.push(to_lowercase(infos[k].name.as_str()));
        assert(keys@[k as int]@ == name_keys(infos@)[k as int]);
        assert forall|j: int| 0 <= j < k + 1 implies #[trigger] key_views::<String>(keys@)[j] == name_keys(infos@).take(k + 1)[j] by {
            if j < k {
                assert(keys@[j] == before[j]);
                assert(key_views::<String>(before)[j] == name_keys(infos@).take(k as int)[j]);
            }
        }
        assert(key_views::<String>(keys@) =~= name_keys(infos@).take(k + 1));
        k = k + 1;
    }
    assert(name_keys(infos@).take(n as int) =~= name_keys(infos@));
    let order = stable_order(&keys, n);
    let ghost all = infos@;
    let mut slots: Vec<Option<ClientInfo>> = Vec::new();
    for info in it: infos
        invariant
            it.seq() == all,
            slots@.len() == it.index(),
            forall|j: int| 0 <= j < slots@.len() ==> #[trigger] slots@[j] == Some(all[j]),
    {
        slots.push(Some(info));
    }
    let mut out: Vec<ClientInfo> = Vec::new();
    let mut p: usize = 0;
    while p < n
        invariant
            n == all.len(),
            slots@.len() == n,
            p <= n,
            is_stable_order::<String>(name_keys(all), order@, n as nat),
            out@ == order@.take(p as int).map_values(|i: usize| all[i as int]),
            forall|j: int|
                0 <= j < n && !order@.take(p as int).contains(j as usize) ==> #[trigger] slots@[j] == Some(all[j]),
        decreases n - p,
    {
        let i = order[p];
        proof {
            if order@.take(p as int).contains(i) {
                let q = choose|q: int| 0 <= q < p && order@.take(p as int)[q] == i;
                assert(crate::order::precedes::<String>(name_keys(all), order@[q] as int, order@[p as int] as int));
                crate::order::lemma_precedes_irreflexive::<String>(name_keys(all), i as int);
            }
        }
        let mut taken: Option<ClientInfo> = None;
        slots.set_and_swap(i, &mut taken);
        assert(taken == Some(all[i as int]));
        out.push(taken.unwrap());
        assert(order@.take(p + 1) =~= order@.take(p as int).push(i));
        assert(out@ =~= order@.take(p + 1).map_values(|i: usize| all[i as int]));
        assert forall|j: int|
            0 <= j < n && !order@.take(p + 1).contains(j as usize) implies #[trigger] slots@[j] == Some(all[j]) by {
            assert(order@.take(p + 1)[p as int] == i);
            assert(j != i);
            if order@.take(p as int).contains(j as usize) {
                let q = choose|q: int| 0 <= q < p && order@.take(p as int)[q] == j as usize;
                assert(order@.take(p + 1)[q] == j as usize);
            }
        }
        p = p + 1;
    }
    assert(order@.take(n as int) =~= order@);
    out
}

/// The clients under a project root, as the scan lists them: the reports
/// of the scanned folders (the `_logs` folder left out), ordered by
/// lowercased name.
pub fn scan_clients(listings: Vec<ClientListing>) -> (r: Vec<ClientInfo>)
    ensures
        exists|infos: Seq<ClientInfo>| reports_all(listings@, infos) && listed_in_name_order(infos, r@),
{
    let infos = collect_clients(listings);
    let ghost v = infos@;
    let r = order_clients(infos);
    assert(reports_all(listings@, v) && listed_in_name_order(v, r@));
    r
}

// ---------------------------------------------------------------------------
// Creating, repairing and opening clients
// ---------------------------------------------------------------------------

/// The template folder that holds a client's Premiere project.
pub const PROJECT_FILE_DIR: &'static str = "02_EDIT";

/// The Premiere project copied into most new clients.
pub const CLIENT_TEMPLATE_PROJECT_SOURCE: &'static str =
    "Z:\\The Huddle\\Templates\\Copied_Huddle Master Template 2026_4K_2\\Huddle Master Template 2026_4K_2.prproj";

/// The Premiere project copied into new video-call Huddle clients.
pub const CLIENT_SCENE_SWITCHING_TEMPLATE_SOURCE: &'static str =
    "Z:\\The Huddle\\Templates\\Copied_Huddle Master Template Scenes Switching 2026 4K_1\\Huddle Master Template Scenes Switching 2026 4K_1.prproj";

/// The Premiere project a new client of this type starts from: none for
/// types other than EXHIBITOR, PRODUCT and HUDDLE; the scene-switching
/// template for a video-call Huddle; the main template otherwise.
pub open spec fn project_template(client_type: Seq<char>, huddle_template: Option<Seq<char>>) -> Option<Seq<char>> {
    if client_type == "EXHIBITOR"@ || client_type == "PRODUCT"@ || client_type == "HUDDLE"@ {
        if client_type == "HUDDLE"@ && huddle_template == Some("VIDEO_CALL"@) {
            Some(CLIENT_SCENE_SWITCHING_TEMPLATE_SOURCE@)
        } else {
            Some(CLIENT_TEMPLATE_PROJECT_SOURCE@)
        }
    } else {
        None
    }
}

/// The Premiere project to copy into a new client of type `client_type`.
pub fn project_template_for(client_type: &str, huddle_template: Option<&str>) -> (r: Option<&'static str>)
    ensures
        crate::modes::opt_text(r) == project_template(client_type@, crate::modes::opt_text(huddle_template)),
{
    if text_eq(client_type, "EXHIBITOR") || text_eq(client_type, "PRODUCT") || text_eq(client_type, "HUDDLE") {
        let video_call = match huddle_template {
            Some(t) => text_eq(t, "VIDEO_CALL"),
            None => false,
        };
        if text_eq(client_type, "HUDDLE") && video_call {
            Some(CLIENT_SCENE_SWITCHING_TEMPLATE_SOURCE)
        } else {
            Some(CLIENT_TEMPLATE_PROJECT_SOURCE)
        }
    } else {
        None
    }
}

/// A client cannot be created where its folder already exists.
pub fn check_new_client(client_root_exists: bool) -> (r: Result<(), String>)
    ensures
        client_root_exists ==> (r matches Err(e) && e@ == "Client folder already exists"@),
        !client_root_exists ==> r is Ok,
{
    if client_root_exists {
        Err("Client folder already exists".to_owned())
    } else {
        Ok(())
    }
}

/// The error for a Premiere template that is not on disk.
pub fn missing_template_message(template: &str) -> (r: String)
    ensures
        r@ == "Premiere template not found: "@ + template@,
{
    "Premiere template not found: ".to_owned().concat(template)
}

/// The error for a Premiere template that could not be copied.
pub fn template_copy_message(from: &str, to: &str, error: &str) -> (r: String)
    ensures
        r@ == "Failed to copy Premiere template from "@ + from@ + " to "@ + to@ + ": "@ + error@,
{
    "Failed to copy Premiere template from ".to_owned().concat(from).concat(" to ").concat(to).concat(": ").concat(error)
}

/// A client can be repaired only when its folder exists and its name does
/// not mark it as excluded (`XX...`).
pub fn check_fix_client(client_root_exists: bool, client_name: &str) -> (r: Result<(), String>)
    ensures
        !client_root_exists ==> (r matches Err(e) && e@ == "Client folder does not exist"@),
        client_root_exists && is_excluded_name(client_name@) ==> (r matches Err(e) && e@
            == "Folder is not recognized as a client"@),
        client_root_exists && !is_excluded_name(client_name@) ==> r is Ok,
{
    if !client_root_exists {
        Err("Client folder does not exist".to_owned())
    } else if starts_with(client_name, "XX") {
        Err("Folder is not recognized as a client".to_owned())
    } else {
        Ok(())
    }
}

/// A folder can be opened only when it exists and is a folder; the error
/// names the path.
pub fn check_open_folder(exists: bool, is_dir: bool, path: &str) -> (r: Result<(), String>)
    ensures
        !exists ==> (r matches Err(e) && e@ == "Path does not exist: "@ + path@),
        exists && !is_dir ==> (r matches Err(e) && e@ == "Path is not a folder: "@ + path@),
        exists && is_dir ==> r is Ok,
{
    if !exists {
        Err("Path does not exist: ".to_owned().concat(path))
    } else if !is_dir {
        Err("Path is not a folder: ".to_owned().concat(path))
    } else {
        Ok(())
    }
}

proof fn lemma_nothing_missing(children: Seq<ChildDir>, dirs: Seq<Seq<char>>)
    requires
        missing_dirs(children, dirs).len() == 0,
    ensures
        forall|i: int| 0 <= i < dirs.len() ==> dir_present(children, #[trigger] dirs[i]),
    decreases dirs.len(),
{
    if dirs.len() > 0 {
        if !dir_present(children, dirs.last()) {
            assert(missing_dirs(children, dirs).len() > 0);
        }
        lemma_nothing_missing(children, dirs.drop_last());
        assert forall|i: int| 0 <= i < dirs.len() implies dir_present(children, #[trigger] dirs[i]) by {
            if i < dirs.len() - 1 {
                assert(dirs[i] == dirs.drop_last()[i]);
            }
        }
    }
}

proof fn lemma_no_slash(s: Seq<char>)
    requires
        forall|i: int| 0 <= i < s.len() ==> s[i] != '/',
    ensures
        first_index(s, '/') < 0,
    decreases s.len(),
{
    if s.len() > 0 {
        assert forall|i: int| 0 <= i < s.drop_first().len() implies s.drop_first()[i] != '/' by {
            assert(s.drop_first()[i] == s[i + 1]);
        }
        lemma_no_slash(s.drop_first());
    }
}

/// A top-level template folder is present when a child of that name is.
proof fn lemma_top_level_present(children: Seq<ChildDir>, d: Seq<char>)
    requires
        dir_present(children, d),
        forall|i: int| 0 <= i < d.len() ==> d[i] != '/',
    ensures
        has_child(children, d),
{
    lemma_no_slash(d);
}

/// A client is reported `OK` exactly when none of its template folders is
/// missing.
pub proof fn lemma_ok_iff_nothing_missing(children: Seq<ChildDir>)
    ensures
        (client_status(children) == "OK"@) == (missing_dirs(children, template_dir_list()).len() == 0),
{
    assert("OK"@ != "Missing folders"@) by {
        reveal_strlit("OK");
        reveal_strlit("Missing folders");
        assert("OK"@.len() != "Missing folders"@.len());
    }
    let t = template_dir_list();
    if missing_dirs(children, t).len() == 0 {
        lemma_nothing_missing(children, t);
        assert(has_child(children, "01_MEDIA"@)) by {
            reveal_strlit("01_MEDIA");
            assert(dir_present(children, t[0]));
            lemma_top_level_present(children, "01_MEDIA"@);
        }
        assert(has_child(children, "02_EDIT"@)) by {
            reveal_strlit("02_EDIT");
            assert(dir_present(children, t[7]));
            lemma_top_level_present(children, "02_EDIT"@);
        }
        assert(has_child(children, "03_EXPORTS"@)) by {
            reveal_strlit("03_EXPORTS");
            assert(dir_present(children, t[8]));
            lemma_top_level_present(children, "03_EXPORTS"@);
        }
        assert(has_child(children, "04_FINAL"@)) by {
            reveal_strlit("04_FINAL");
            assert(dir_present(children, t[10]));
            lemma_top_level_present(children, "04_FINAL"@);
        }
        assert forall|i: int| 0 <= i < required_dir_list().len() implies has_child(children, #[trigger] required_dir_list()[i]) by {
        }
    }
}

/// The folders that are not clients are exactly those whose name begins with
/// two capital X's: the scan reports such a folder as `Not a client` (and
/// repairing it is refused, by `check_fix_client`), and reports every other
/// folder but `_logs` with the status and the missing folders of its
/// template.
pub proof fn lemma_not_a_client_iff_excluded(name: Seq<char>, children: Seq<ChildDir>)
    requires
        name != crate::log::LOG_DIR_NAME@,
    ensures
        is_excluded_name(name) <==> (name.len() >= 2 && name[0] == 'X' && name[1] == 'X'),
        assessment(name, children) is Some,
        (assessment(name, children).unwrap().0 == "Not a client"@) <==> (name.len() >= 2 && name[0] == 'X'
            && name[1] == 'X'),
        !(name.len() >= 2 && name[0] == 'X' && name[1] == 'X') ==> assessment(name, children) == Some(
            (client_status(children), missing_dirs(children, template_dir_list())),
        ),
{
    reveal_strlit("XX");
    reveal_strlit("Not a client");
    reveal_strlit("OK");
    reveal_strlit("Missing folders");
    assert("Not a client"@.len() != "OK"@.len());
    assert("Not a client"@.len() != "Missing folders"@.len());
    if name.len() >= 2 {
        if name[0] == 'X' && name[1] == 'X' {
            assert(name.subrange(0, 2) =~= "XX"@);
        } else if has_prefix(name, "XX"@) {
            assert(name.subrange(0, 2)[0] == name[0]);
            assert(name.subrange(0, 2)[1] == name[1]);
        }
    }
}

} // verus!
