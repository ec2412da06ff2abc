//! What discovering, inspecting and forgetting containers is for.

use crate::docker::{
    asked_in_order, comes_up, count_complete, dirs_to_try, goes_down, info_from, label_value,
    listed_dirs, listed_in, proc_cgroup_text, subscribed_actions, text_or_empty, Discovered,
    InfoView, InspectedContainer, ManagerView,
};
use crate::text::{lines, signed_decimal};
use crate::text_laws::{law_prefix_comes_off, law_trimming_takes_the_run};
use vstd::prelude::*;

verus! {

// --------------------------------------------------------------- inspection

/// The value of a label is that of its first occurrence, and a label that does
/// not occur has none.
proof fn lemma_label_value(labels: Seq<(String, String)>, name: Seq<char>, i: int)
    requires
        0 <= i <= labels.len(),
        forall|k: int| 0 <= k < i ==> (#[trigger] labels[k]).0@ != name,
    ensures
        i < labels.len() && labels[i].0@ == name ==> label_value(labels, name) == Some(labels[i].1@),
        i == labels.len() ==> label_value(labels, name) is None,
    decreases i,
{
    if i > 0 {
        assert(labels[0].0@ != name);
        let rest = labels.drop_first();
        assert forall|k: int| 0 <= k < i - 1 implies (#[trigger] rest[k]).0@ != name by {
            assert(labels[k + 1].0@ != name);
        }
        lemma_label_value(rest, name, i - 1);
    }
}

/// The labels of a container, none where the daemon gave none.
pub open spec fn labels_of(inspected: InspectedContainer) -> Seq<(String, String)> {
    match inspected.labels {
        Some(labels) => labels@,
        None => seq![],
    }
}

/// A container is described as the daemon describes it: its name without the
/// slashes in front (its id, where it has no name), its image or "unknown", its
/// first process or zero, under the id and the control group it was found by.
pub proof fn law_containers_are_described_as_inspected(
    id: Seq<char>,
    inspected: InspectedContainer,
    cgroup_id: u64,
)
    ensures
        ({
            let info = info_from(id, inspected, cgroup_id);
            let raw = match inspected.name {
                Some(name) => name@,
                None => id,
            };
            let cut = raw.len() - info.name.len();
            &&& info.id == id
            &&& info.cgroup_id == cgroup_id
            &&& cut >= 0
            &&& info.name == raw.skip(cut)
            &&& forall|i: int| 0 <= i < cut ==> #[trigger] raw[i] == '/'
            &&& info.name.len() > 0 ==> info.name[0] != '/'
            &&& inspected.image is Some ==> info.image == inspected.image->0@
            &&& inspected.image is None ==> info.image == "unknown"@
            &&& inspected.pid is Some ==> info.pid == inspected.pid->0
            &&& inspected.pid is None ==> info.pid == 0
        }),
{
    law_trimming_takes_the_run(
        match inspected.name {
            Some(name) => name@,
            None => id,
        },
        '/',
    );
}

/// Compose's labels give the service and the project, each by its own label and
/// whatever else there is: the first occurrence counts, and without one there is
/// none.
pub proof fn law_labels_give_service_and_project(
    id: Seq<char>,
    inspected: InspectedContainer,
    cgroup_id: u64,
    i: int,
    j: int,
)
    requires
        0 <= i <= labels_of(inspected).len(),
        0 <= j <= labels_of(inspected).len(),
        forall|k: int|
            0 <= k < i ==> (#[trigger] labels_of(inspected)[k]).0@ != "com.docker.compose.service"@,
        forall|k: int|
            0 <= k < j ==> (#[trigger] labels_of(inspected)[k]).0@ != "com.docker.compose.project"@,
        i < labels_of(inspected).len() ==> labels_of(inspected)[i].0@
            == "com.docker.compose.service"@,
        j < labels_of(inspected).len() ==> labels_of(inspected)[j].0@
            == "com.docker.compose.project"@,
    ensures
        ({
            let info = info_from(id, inspected, cgroup_id);
            let labels = labels_of(inspected);
            &&& info.compose_service == (if i < labels.len() {
                Some(labels[i].1@)
            } else {
                None
            })
            &&& info.compose_project == (if j < labels.len() {
                Some(labels[j].1@)
            } else {
                None
            })
        }),
{
    lemma_label_value(labels_of(inspected), "com.docker.compose.service"@, i);
    lemma_label_value(labels_of(inspected), "com.docker.compose.project"@, j);
}

// ---------------------------------------------------------------- discovery

/// Every running container that has an id, an answer of the daemon and a
/// control group is found by that group after the sync, whatever its labels,
/// image or name are, unless a later one of the list has the same group; a
/// group that none of them has stays as it was.
pub proof fn law_synced_containers_are_found(
    manager: ManagerView,
    found: Seq<Discovered>,
    i: int,
    other: u64,
)
    requires
        0 <= i < found.len(),
        found[i].id is Some,
        found[i].reply is Some,
        found[i].cgroup_id is Some,
        forall|k: int|
            i < k < found.len() && (#[trigger] found[k]).id is Some && found[k].reply is Some
                ==> found[k].cgroup_id != found[i].cgroup_id,
        forall|k: int|
            0 <= k < found.len() && (#[trigger] found[k]).id is Some && found[k].reply is Some
                ==> found[k].cgroup_id != Some(other),
    ensures
        ({
            let after = manager.with_all(found);
            let cgroup_id = found[i].cgroup_id->0;
            &&& after.containers.contains_key(cgroup_id)
            &&& after.containers[cgroup_id] == info_from(
                found[i].id->0@,
                found[i].reply->0,
                cgroup_id,
            )
            &&& after.lookup(cgroup_id) == Some(after.containers[cgroup_id])
            &&& after.containers.contains_key(other) == manager.containers.contains_key(other)
            &&& after.containers[other] == manager.containers[other]
        }),
    decreases found.len(),
{
    let rest = found.drop_last();
    let last = found.last();
    assert(forall|k: int| 0 <= k < rest.len() ==> rest[k] == found[k]);
    lemma_others_stay(manager, rest, other);
    assert(found[found.len() - 1] == last);
    if i < found.len() - 1 {
        law_synced_containers_are_found(manager, rest, i, other);
    }
}

proof fn lemma_others_stay(manager: ManagerView, found: Seq<Discovered>, other: u64)
    requires
        forall|k: int|
            0 <= k < found.len() && (#[trigger] found[k]).id is Some && found[k].reply is Some
                ==> found[k].cgroup_id != Some(other),
    ensures
        manager.with_all(found).containers.contains_key(other) == manager.containers.contains_key(
            other,
        ),
        manager.with_all(found).containers[other] == manager.containers[other],
    decreases found.len(),
{
    if found.len() > 0 {
        let rest = found.drop_last();
        assert(forall|k: int| 0 <= k < rest.len() ==> rest[k] == found[k]);
        lemma_others_stay(manager, rest, other);
        assert(found[found.len() - 1] == found.last());
    }
}

/// The sync counts every container that has an id, an answer of the daemon and
/// a control group, and no other.
pub proof fn law_sync_counts_what_it_takes_in(found: Seq<Discovered>)
    ensures
        count_complete(found) == found.filter(
            |f: Discovered| f.id is Some && f.reply is Some && f.cgroup_id is Some,
        ).len(),
    decreases found.len(),
{
    reveal(Seq::filter);
    if found.len() > 0 {
        law_sync_counts_what_it_takes_in(found.drop_last());
    }
}

/// A discovered container can be stopped by its id: unless a later one of the
/// list has the same id, the id leads to its control group.
pub proof fn law_synced_containers_are_known_by_id(
    manager: ManagerView,
    found: Seq<Discovered>,
    i: int,
)
    requires
        0 <= i < found.len(),
        found[i].id is Some,
        found[i].reply is Some,
        found[i].cgroup_id is Some,
        forall|k: int|
            i < k < found.len() && (#[trigger] found[k]).id is Some && found[k].reply is Some
                && found[k].cgroup_id is Some ==> found[k].id->0@ != found[i].id->0@,
    ensures
        manager.with_all(found).ids.contains_key(found[i].id->0@),
        manager.with_all(found).ids[found[i].id->0@] == found[i].cgroup_id->0,
    decreases found.len(),
{
    let rest = found.drop_last();
    assert(forall|k: int| 0 <= k < rest.len() ==> rest[k] == found[k]);
    assert(found[found.len() - 1] == found.last());
    if i < found.len() - 1 {
        law_synced_containers_are_known_by_id(manager, rest, i);
    }
}

/// A container that is taken in stands under its control group and its id, in
/// place of what stood there, and nothing else changes.
pub proof fn law_taking_in_is_local(
    manager: ManagerView,
    info: InfoView,
    cgroup_id: u64,
    id: Seq<char>,
)
    ensures
        manager.with(info).lookup(info.cgroup_id) == Some(info),
        manager.with(info).ids.contains_key(info.id),
        manager.with(info).ids[info.id] == info.cgroup_id,
        cgroup_id != info.cgroup_id ==> manager.with(info).lookup(cgroup_id) == manager.lookup(
            cgroup_id,
        ),
        id != info.id ==> manager.with(info).ids.contains_key(id) == manager.ids.contains_key(id)
            && manager.with(info).ids[id] == manager.ids[id],
        manager.containers.contains_key(cgroup_id) ==> manager.lookup(cgroup_id) == Some(
            manager.containers[cgroup_id],
        ),
        !manager.containers.contains_key(cgroup_id) ==> manager.lookup(cgroup_id) is None,
{
}

/// A container that stops is forgotten by its id and by its control group,
/// whatever stands there; nothing else changes, and an unknown id changes
/// nothing at all.
pub proof fn law_forgetting_is_local(
    manager: ManagerView,
    id: Seq<char>,
    cgroup_id: u64,
    other: Seq<char>,
)
    ensures
        manager.ids.contains_key(id) ==> {
            let after = manager.without(id);
            &&& !after.containers.contains_key(manager.ids[id])
            &&& !after.ids.contains_key(id)
            &&& cgroup_id != manager.ids[id] ==> after.containers.contains_key(cgroup_id)
                == manager.containers.contains_key(cgroup_id) && after.containers[cgroup_id]
                == manager.containers[cgroup_id]
            &&& other != id ==> after.ids.contains_key(other) == manager.ids.contains_key(other)
                && after.ids[other] == manager.ids[other]
        },
        !manager.ids.contains_key(id) ==> manager.without(id) == manager,
{
}

// ------------------------------------------------------------------- events

/// Starting and unpausing bring a container up; dying, being destroyed, stopped
/// or killed take it down; nothing else means anything, and each of these is
/// subscribed to.
pub proof fn law_actions_mean_what_they_say(action: Seq<char>)
    ensures
        comes_up(action) <==> action == "start"@ || action == "unpause"@,
        goes_down(action) <==> action == "die"@ || action == "destroy"@ || action == "stop"@
            || action == "kill"@,
        subscribed_actions().contains(action) <==> action == "start"@ || action == "unpause"@
            || action == "die"@ || action == "destroy"@ || action == "stop"@ || action == "kill"@,
{
    let s = subscribed_actions();
    assert(s[0] == "start"@ && s[1] == "die"@ && s[2] == "destroy"@);
    assert(s[3] == "stop"@ && s[4] == "kill"@ && s[5] == "unpause"@);
}

/// A missing text counts as empty, and any other as itself.
pub proof fn law_missing_text_is_empty(s: Option<String>)
    ensures
        s is Some ==> text_or_empty(s) == s->0@,
        s is None ==> text_or_empty(s).len() == 0,
{
}

// ----------------------------------------------------------- control groups

/// The four usual places of a container's control group are tried last, in
/// their order, with the container's id in them; without a list of the process
/// nothing else is tried.
pub proof fn law_usual_places_are_tried_last(file: Option<Seq<char>>, id: Seq<char>)
    ensures
        ({
            let dirs = dirs_to_try(file, id);
            let n = dirs.len() - 4;
            &&& n >= 0
            &&& file is None ==> n == 0
            &&& dirs[n] == "/sys/fs/cgroup/system.slice/docker-"@ + id + ".scope"@
            &&& dirs[n + 1] == "/sys/fs/cgroup/docker/"@ + id
            &&& dirs[n + 2] == "/sys/fs/cgroup/docker-"@ + id + ".scope"@
            &&& dirs[n + 3] == "/sys/fs/cgroup/docker.slice/docker-"@ + id + ".scope"@
            &&& file is Some ==> dirs.take(n) == listed_dirs(lines(file->0))
        }),
{
    let dirs = dirs_to_try(file, id);
    if file is Some {
        assert(dirs.take(dirs.len() - 4) =~= listed_dirs(lines(file->0)));
    }
}

/// The lines that name a directory are those that start with `0::`, and each
/// names the directory of what follows, in the order of the lines.
pub proof fn law_unified_lines_name_directories(
    file: Seq<Seq<char>>,
    path: Seq<char>,
    line: Seq<char>,
)
    ensures
        listed_dirs(seq![]).len() == 0,
        listed_dirs(file.push("0::"@ + path)) == listed_dirs(file).push("/sys/fs/cgroup"@ + path),
        !(line.len() >= 3 && line[0] == '0' && line[1] == ':' && line[2] == ':') ==> listed_dirs(
            file.push(line),
        ) == listed_dirs(file),
{
    reveal_strlit("0::");
    let named = file.push("0::"@ + path);
    assert(named.drop_last() =~= file);
    law_prefix_comes_off("0::"@ + path, "0::"@, path);
    let plain = file.push(line);
    assert(plain.drop_last() =~= file);
    law_prefix_comes_off(line, "0::"@, path);
}

/// The list of a process is read from its own file, and only of a process there
/// is.
pub proof fn law_process_file_is_asked_for<R>(read_file: R, pid: i64, file: Option<String>) where
    R: Fn(&String) -> Option<String>,

    requires
        listed_in(read_file, pid, file),
    ensures
        pid <= 0 ==> file is None,
        pid > 0 ==> exists|path: String|
            path@ == "/proc/"@ + signed_decimal(pid as int) + "/cgroup"@
                && #[trigger] read_file.ensures((&path,), file),
{
    if pid > 0 {
        let path = choose|path: String|
            path@ == proc_cgroup_text(pid) && #[trigger] read_file.ensures((&path,), file);
        assert(read_file.ensures((&path,), file));
    }
}

/// The control group is the first that any directory has, in the order in which
/// they are tried, and there is none only where no directory has one.
pub proof fn law_first_directory_decides<I>(
    inode_of: I,
    dirs: Seq<String>,
    answers: Seq<Option<u64>>,
    found: Option<u64>,
) where I: Fn(&String) -> Option<u64>
    requires
        asked_in_order(inode_of, dirs, answers, found),
    ensures
        found is Some ==> exists|k: int|
            0 <= k < dirs.len() && inode_of.ensures((&#[trigger] dirs[k],), found) && forall|j: int|
                0 <= j < k ==> inode_of.ensures((&#[trigger] dirs[j],), None),
        found is None ==> forall|j: int|
            0 <= j < dirs.len() ==> inode_of.ensures((&#[trigger] dirs[j],), None),
{
    if found is Some {
        let k = answers.len() - 1;
        assert(inode_of.ensures((&dirs[k],), answers[k]));
        assert forall|j: int| 0 <= j < k implies inode_of.ensures((&#[trigger] dirs[j],), None) by {
            assert(inode_of.ensures((&dirs[j],), answers[j]));
        }
    } else {
        assert forall|j: int| 0 <= j < dirs.len() implies inode_of.ensures(
            (&#[trigger] dirs[j],),
            None,
        ) by {
            assert(inode_of.ensures((&dirs[j],), answers[j]));
        }
    }
}

} // verus!
