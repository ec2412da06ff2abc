//! The containers known by their control groups, what Docker's events do to
//! them, and where a container's control group is found.

use crate::text::{
    after_prefix, decimal, join2, join3, lines, lines_of, push_decimal, push_signed_decimal,
    same_text, signed_decimal, strip_prefix_of, texts, trim_start, trim_start_of,
};
use std::collections::HashMap;
use vstd::hash_map::StringHashMap;
use vstd::prelude::*;

verus! {

broadcast use vstd::std_specs::hash::group_hash_axioms;

// ------------------------------------------------------------------- types

/// What is known of a running container.
#[derive(Clone, Debug)]
pub struct ContainerInfo {
    pub id: String,
    pub name: String,
    pub image: String,
    pub compose_service: Option<String>,
    pub compose_project: Option<String>,
    pub cgroup_id: u64,
    pub pid: i64,
}

/// What a `ContainerInfo` says.
#[verifier::ext_equal]
pub struct InfoView {
    pub id: Seq<char>,
    pub name: Seq<char>,
    pub image: Seq<char>,
    pub compose_service: Option<Seq<char>>,
    pub compose_project: Option<Seq<char>>,
    pub cgroup_id: u64,
    pub pid: i64,
}

/// The text of an optional string.
pub open spec fn optional_text(s: Option<String>) -> Option<Seq<char>> {
    match s {
        Some(text) => Some(text@),
        None => None,
    }
}

impl View for ContainerInfo {
    type V = InfoView;

    open spec fn view(&self) -> InfoView {
        InfoView {
            id: self.id@,
            name: self.name@,
            image: self.image@,
            compose_service: optional_text(self.compose_service),
            compose_project: optional_text(self.compose_project),
            cgroup_id: self.cgroup_id,
            pid: self.pid,
        }
    }
}

/// What the Docker daemon says of a container.
pub struct InspectedContainer {
    pub name: Option<String>,
    pub image: Option<String>,
    /// The labels, if there are any: names and values, no name twice.
    pub labels: Option<Vec<(String, String)>>,
    pub pid: Option<i64>,
}

/// Why a container could not be taken in.
pub enum InspectError {
    /// The daemon did not answer for this container.
    NotInspected { id: String },
    /// No control group was found for the container.
    NoCgroup { name: String, pid: i64 },
}

/// What to do about an event of the Docker daemon.
pub enum ListenerStep {
    /// Nothing.
    Ignore,
    /// A container came up: inspect it, once its control group had time to
    /// appear.
    Inspect { id: String },
    /// A container went down: forget it.
    Forget { id: String },
}

/// A container that was forgotten.
pub struct Stopped {
    pub cgroup_id: u64,
    pub info: Option<ContainerInfo>,
}

/// A running container as it is found when all are listed: its id, what the
/// daemon says of it, and its control group.
pub struct Discovered {
    pub id: Option<String>,
    pub reply: Option<InspectedContainer>,
    pub cgroup_id: Option<u64>,
}

/// The label under which Docker Compose puts the service.
pub open spec fn service_label() -> Seq<char> {
    "com.docker.compose.service"@
}

/// The label under which Docker Compose puts the project.
pub open spec fn project_label() -> Seq<char> {
    "com.docker.compose.project"@
}

// ------------------------------------------------------- inspected containers

/// The value of the first of `labels` with this name.
pub open spec fn label_value(labels: Seq<(String, String)>, name: Seq<char>) -> Option<Seq<char>>
    decreases labels.len(),
{
    if labels.len() == 0 {
        None
    } else if labels[0].0@ == name {
        Some(labels[0].1@)
    } else {
        label_value(labels.drop_first(), name)
    }
}

/// The container that `id` is, by what the daemon says of it and its control
/// group.
pub open spec fn info_from(id: Seq<char>, inspected: InspectedContainer, cgroup_id: u64) -> InfoView {
    let labels = match inspected.labels {
        Some(labels) => labels@,
        None => seq![],
    };
    InfoView {
        id,
        name: inspected.spec_name(id),
        image: match inspected.image {
            Some(image) => image@,
            None => "unknown"@,
        },
        compose_service: label_value(labels, service_label()),
        compose_project: label_value(labels, project_label()),
        cgroup_id,
        pid: inspected.spec_pid(),
    }
}

fn find_label(labels: &Vec<(String, String)>, name: &str) -> (value: Option<String>)
    ensures
        optional_text(value) == label_value(labels@, name@),
{
    let mut i: usize = 0;
    assert(labels@.skip(0) =~= labels@);
    while i < labels.len()
        invariant
            i <= labels@.len(),
            label_value(labels@, name@) == label_value(labels@.skip(i as int), name@),
        decreases labels@.len() - i,
    {
        if same_text(labels[i].0.as_str(), name) {
            return Some(labels[i].1.clone());
        }
        assert(labels@.skip(i as int).drop_first() =~= labels@.skip(i + 1));
        i += 1;
    }
    None
}

impl InspectedContainer {
    /// The name of the container, without leading slashes; its id when it has
    /// none.
    pub open spec fn spec_name(self, id: Seq<char>) -> Seq<char> {
        trim_start(
            match self.name {
                Some(name) => name@,
                None => id,
            },
            '/',
        )
    }

    /// The container's first process, or zero.
    pub open spec fn spec_pid(self) -> i64 {
        match self.pid {
            Some(pid) => pid,
            None => 0,
        }
    }

    /// The container's first process, or zero.
    pub fn first_pid(&self) -> (pid: i64)
        ensures
            pid == self.spec_pid(),
    {
        match self.pid {
            Some(pid) => pid,
            None => 0,
        }
    }

    fn display_name(&self, id: &str) -> (name: String)
        ensures
            name@ == self.spec_name(id@),
    {
        match &self.name {
            Some(name) => trim_start_of(name.as_str(), '/'),
            None => trim_start_of(id, '/'),
        }
    }

    fn to_info(&self, id: &str, cgroup_id: u64) -> (info: ContainerInfo)
        ensures
            info@ == info_from(id@, *self, cgroup_id),
    {
        let compose_service: Option<String> = match &self.labels {
            Some(labels) => find_label(labels, "com.docker.compose.service"),
            None => None,
        };
        let compose_project: Option<String> = match &self.labels {
            Some(labels) => find_label(labels, "com.docker.compose.project"),
            None => None,
        };
        ContainerInfo {
            id: id.to_owned(),
            name: self.display_name(id),
            image: match &self.image {
                Some(image) => image.clone(),
                None => "unknown".to_owned(),
            },
            compose_service,
            compose_project,
            cgroup_id,
            pid: self.first_pid(),
        }
    }
}

impl InspectError {
    /// What went wrong, in words.
    pub open spec fn spec_message(self) -> Seq<char> {
        match self {
            InspectError::NotInspected { id } => "Failed to inspect container "@ + id@,
            InspectError::NoCgroup { name, pid } => "Could not resolve cgroup_id for container "@
                + name@ + " (PID: "@ + signed_decimal(pid as int) + ")"@,
        }
    }

    /// What went wrong, in words.
    pub fn message(&self) -> (text: String)
        ensures
            text@ == self.spec_message(),
    {
        match self {
            InspectError::NotInspected { id } => join2("Failed to inspect container ", id.as_str()),
            InspectError::NoCgroup { name, pid } => {
                let mut text = join3(
                    "Could not resolve cgroup_id for container ",
                    name.as_str(),
                    " (PID: ",
                );
                push_signed_decimal(&mut text, *pid);
                text.append(")");
                text
            },
        }
    }
}

// ----------------------------------------------------------------- manager

/// The running containers, found by control group and by id.
pub struct DockerManager {
    containers: HashMap<u64, ContainerInfo>,
    id_to_cgroup: StringHashMap<u64>,
}

/// What a `DockerManager` holds.
#[verifier::ext_equal]
pub struct ManagerView {
    /// The container of each control group.
    pub containers: Map<u64, InfoView>,
    /// The control group of each container id.
    pub ids: Map<Seq<char>, u64>,
}

impl View for DockerManager {
    type V = ManagerView;

    closed spec fn view(&self) -> ManagerView {
        ManagerView {
            containers: self.containers@.map_values(|info: ContainerInfo| info@),
            ids: self.id_to_cgroup@,
        }
    }
}

impl ManagerView {
    /// The containers with `info` among them.
    pub open spec fn with(self, info: InfoView) -> ManagerView {
        ManagerView {
            containers: self.containers.insert(info.cgroup_id, info),
            ids: self.ids.insert(info.id, info.cgroup_id),
        }
    }

    /// The containers without the one of this id, and without whatever is
    /// known of its control group.
    pub open spec fn without(self, id: Seq<char>) -> ManagerView {
        if self.ids.contains_key(id) {
            ManagerView {
                containers: self.containers.remove(self.ids[id]),
                ids: self.ids.remove(id),
            }
        } else {
            self
        }
    }

    /// The container of a control group, if one is known.
    pub open spec fn lookup(self, cgroup_id: u64) -> Option<InfoView> {
        if self.containers.contains_key(cgroup_id) {
            Some(self.containers[cgroup_id])
        } else {
            None
        }
    }

    /// The containers after a running one was found.
    pub open spec fn with_found(self, found: Discovered) -> ManagerView {
        match (found.id, found.reply, found.cgroup_id) {
            (Some(id), Some(inspected), Some(cgroup_id)) => self.with(
                info_from(id@, inspected, cgroup_id),
            ),
            _ => self,
        }
    }

    /// The containers after all of `found` were found, in order.
    pub open spec fn with_all(self, found: Seq<Discovered>) -> ManagerView
        decreases found.len(),
    {
        if found.len() == 0 {
            self
        } else {
            self.with_all(found.drop_last()).with_found(found.last())
        }
    }
}

/// Whether a running container can be taken in: it has an id, the daemon
/// answered for it, and its control group was found.
pub open spec fn is_complete(found: Discovered) -> bool {
    found.id is Some && found.reply is Some && found.cgroup_id is Some
}

/// How many of `found` can be taken in.
pub open spec fn count_complete(found: Seq<Discovered>) -> nat
    decreases found.len(),
{
    if found.len() == 0 {
        0
    } else {
        count_complete(found.drop_last()) + if is_complete(found.last()) {
            1nat
        } else {
            0nat
        }
    }
}

fn copy_optional(s: &Option<String>) -> (copy: Option<String>)
    ensures
        optional_text(copy) == optional_text(*s),
{
    match s {
        Some(text) => Some(text.clone()),
        None => None,
    }
}

fn copy_info(info: &ContainerInfo) -> (copy: ContainerInfo)
    ensures
        copy@ == info@,
{
    ContainerInfo {
        id: info.id.clone(),
        name: info.name.clone(),
        image: info.image.clone(),
        compose_service: copy_optional(&info.compose_service),
        compose_project: copy_optional(&info.compose_project),
        cgroup_id: info.cgroup_id,
        pid: info.pid,
    }
}

impl DockerManager {
    /// No containers known yet.
    pub fn new() -> (manager: Self)
        ensures
            manager@.containers == Map::<u64, InfoView>::empty(),
            manager@.ids == Map::<Seq<char>, u64>::empty(),
    {
        let manager = DockerManager {
            containers: HashMap::new(),
            id_to_cgroup: StringHashMap::new(),
        };
        assert(manager@.containers =~= Map::<u64, InfoView>::empty());
        manager
    }

    /// Takes a container in, given what the daemon said of it, if it answered,
    /// and its control group, if that was found.
    pub fn inspect_and_cache(
        &mut self,
        container_id: &str,
        reply: &Option<InspectedContainer>,
        cgroup_id: Option<u64>,
    ) -> (result: Result<ContainerInfo, InspectError>)
        ensures
            match (*reply, cgroup_id) {
                (Some(inspected), Some(cgroup)) => {
                    &&& result is Ok
                    &&& result->Ok_0@ == info_from(container_id@, inspected, cgroup)
                    &&& final(self)@ == old(self)@.with(
                        info_from(container_id@, inspected, cgroup),
                    )
                },
                (Some(inspected), None) => {
                    &&& result is Err
                    &&& result->Err_0 matches InspectError::NoCgroup { name, pid } && name@
                        == inspected.spec_name(container_id@) && pid == inspected.spec_pid()
                    &&& final(self)@ == old(self)@
                },
                (None, _) => {
                    &&& result is Err
                    &&& result->Err_0 matches InspectError::NotInspected { id } && id@
                        == container_id@
                    &&& final(self)@ == old(self)@
                },
            },
    {
        let ghost before = self@;
        let inspected = match reply {
            Some(inspected) => inspected,
            None => {
                return Err(InspectError::NotInspected { id: container_id.to_owned() });
            },
        };
        let cgroup: u64 = match cgroup_id {
            Some(cgroup) => cgroup,
            None => {
                return Err(
                    InspectError::NoCgroup {
                        name: inspected.display_name(container_id),
                        pid: inspected.first_pid(),
                    },
                );
            },
        };
        let info = inspected.to_info(container_id, cgroup);
        self.containers.insert(cgroup, copy_info(&info));
        self.id_to_cgroup.insert(container_id.to_owned(), cgroup);
        assert(self@ =~= before.with(info@));
        Ok(info)
    }

    /// Takes all running containers in; returns how many were.
    pub fn sync_running_containers(&mut self, found: &Vec<Discovered>) -> (count: usize)
        ensures
            final(self)@ == old(self)@.with_all(found@),
            count == count_complete(found@),
    {
        let mut count: usize = 0;
        let ghost before = self@;
        assert(found@.take(0) =~= seq![]);
        for i in 0..found.len()
            invariant
                self@ == before.with_all(found@.take(i as int)),
                count == count_complete(found@.take(i as int)),
                count <= i,
        {
            let one = &found[i];
            proof {
                assert(found@.take(i + 1).drop_last() =~= found@.take(i as int));
            }
            if let Some(id) = &one.id {
                if let Ok(_info) = self.inspect_and_cache(id.as_str(), &one.reply, one.cgroup_id) {
                    count += 1;
                }
            }
        }
        assert(found@.take(found@.len() as int) =~= found@);
        count
    }

    /// Forgets the container of this id. Returns its control group, and what
    /// was known of it, if the id was known.
    pub fn forget(&mut self, container_id: &str) -> (stopped: Option<Stopped>)
        ensures
            final(self)@ == old(self)@.without(container_id@),
            match stopped {
                Some(s) => {
                    &&& old(self)@.ids.contains_key(container_id@)
                    &&& s.cgroup_id == old(self)@.ids[container_id@]
                    &&& match s.info {
                        Some(info) => old(self)@.lookup(s.cgroup_id) == Some(info@),
                        None => old(self)@.lookup(s.cgroup_id) is None,
                    }
                },
                None => !old(self)@.ids.contains_key(container_id@),
            },
    {
        let ghost before = self@;
        let cgroup_id: u64 = match self.id_to_cgroup.get(container_id) {
            Some(cgroup_id) => *cgroup_id,
            None => {
                return None;
            },
        };
        self.id_to_cgroup.remove(container_id);
        let info = self.containers.remove(&cgroup_id);
        assert(self@ =~= before.without(container_id@));
        Some(Stopped { cgroup_id, info })
    }

    /// The container of a control group, if one is known.
    pub fn lookup(&self, cgroup_id: u64) -> (info: Option<ContainerInfo>)
        ensures
            match info {
                Some(i) => self@.lookup(cgroup_id) == Some(i@),
                None => self@.lookup(cgroup_id) is None,
            },
    {
        match self.containers.get(&cgroup_id) {
            Some(info) => Some(copy_info(info)),
            None => None,
        }
    }
}

// ------------------------------------------------------------------ events

/// How long to wait after a container came up before it is inspected, in
/// milliseconds.
pub const INSPECT_DELAY_MS: u64 = 50;

/// How long to wait after the stream of events failed, in milliseconds.
pub const RETRY_DELAY_MS: u64 = 1000;

/// Whether an action means that a container came up.
pub open spec fn comes_up(action: Seq<char>) -> bool {
    action == "start"@ || action == "unpause"@
}

/// Whether an action means that a container went down.
pub open spec fn goes_down(action: Seq<char>) -> bool {
    action == "die"@ || action == "destroy"@ || action == "stop"@ || action == "kill"@
}

/// An optional text, where none counts as empty.
pub open spec fn text_or_empty(s: Option<String>) -> Seq<char> {
    match s {
        Some(text) => text@,
        None => seq![],
    }
}

fn string_or_empty(s: &Option<String>) -> (text: String)
    ensures
        text@ == text_or_empty(*s),
{
    match s {
        Some(text) => text.clone(),
        None => String::new(),
    }
}

/// What to do about an event with this action by this container: an event
/// without a container, or with any other action, is ignored.
pub fn listener_step(action: &Option<String>, actor_id: &Option<String>) -> (step: ListenerStep)
    ensures
        ({
            let done = text_or_empty(*action);
            let actor = text_or_empty(*actor_id);
            match step {
                ListenerStep::Inspect { id } => id@ == actor && actor.len() > 0 && comes_up(done),
                ListenerStep::Forget { id } => id@ == actor && actor.len() > 0 && !comes_up(done)
                    && goes_down(done),
                ListenerStep::Ignore => actor.len() == 0 || !comes_up(done) && !goes_down(done),
            }
        }),
{
    let done = string_or_empty(action);
    let id = string_or_empty(actor_id);
    if id.as_str().is_empty() {
        return ListenerStep::Ignore;
    }
    let a = done.as_str();
    if same_text(a, "start") || same_text(a, "unpause") {
        ListenerStep::Inspect { id }
    } else if same_text(a, "die") || same_text(a, "destroy") || same_text(a, "stop") || same_text(
        a,
        "kill",
    ) {
        ListenerStep::Forget { id }
    } else {
        ListenerStep::Ignore
    }
}

/// The actions that the listener subscribes to.
pub open spec fn subscribed_actions() -> Seq<Seq<char>> {
    seq!["start"@, "die"@, "destroy"@, "stop"@, "kill"@, "unpause"@]
}

/// The filters of the listener's subscription, each a name with its values:
/// events of containers, with one of the actions that mean something here.
pub fn event_filters() -> (filters: Vec<(String, Vec<String>)>)
    ensures
        filters@.len() == 2,
        filters@[0].0@ == "type"@,
        texts(filters@[0].1@) == seq!["container"@],
        filters@[1].0@ == "event"@,
        texts(filters@[1].1@) == subscribed_actions(),
{
    let mut kinds: Vec<String> = Vec::new();
    kinds.push("container".to_owned());
    let mut actions: Vec<String> = Vec::new();
    actions.push("start".to_owned());
    actions.push("die".to_owned());
    actions.push("destroy".to_owned());
    actions.push("stop".to_owned());
    actions.push("kill".to_owned());
    actions.push("unpause".to_owned());
    assert(texts(kinds@) =~= seq!["container"@]);
    assert(texts(actions@) =~= subscribed_actions());
    let mut filters: Vec<(String, Vec<String>)> = Vec::new();
    filters.push(("type".to_owned(), kinds));
    filters.push(("event".to_owned(), actions));
    filters
}

/// The line that reports a container that came up.
pub fn started_message(info: &ContainerInfo) -> (line: String)
    ensures
        line@ == "[DOCKER] Container started: "@ + info.name@ + " (image: "@ + info.image@
            + ", cgroup: "@ + decimal(info.cgroup_id as nat) + ")"@,
{
    let mut line = join3("[DOCKER] Container started: ", info.name.as_str(), " (image: ");
    line.append(info.image.as_str());
    line.append(", cgroup: ");
    push_decimal(&mut line, info.cgroup_id);
    line.append(")");
    line
}

/// The line that reports a container that went down, if anything was known of
/// it.
pub fn stopped_message(stopped: &Stopped) -> (line: Option<String>)
    ensures
        match stopped.info {
            Some(info) => line is Some && line->0@ == "[DOCKER] Container stopped: "@ + info.name@
                + " (cgroup: "@ + decimal(stopped.cgroup_id as nat) + ")"@,
            None => line is None,
        },
{
    match &stopped.info {
        Some(info) => {
            let mut line = join3("[DOCKER] Container stopped: ", info.name.as_str(), " (cgroup: ");
            push_decimal(&mut line, stopped.cgroup_id);
            line.append(")");
            Some(line)
        },
        None => None,
    }
}

// ---------------------------------------------------------- control groups

/// The file in which the kernel lists the control groups of a process.
pub open spec fn proc_cgroup_text(pid: i64) -> Seq<char> {
    "/proc/"@ + signed_decimal(pid as int) + "/cgroup"@
}

/// The directories that the lines of such a file name: one for each line of
/// the unified hierarchy.
pub open spec fn listed_dirs(file: Seq<Seq<char>>) -> Seq<Seq<char>>
    decreases file.len(),
{
    if file.len() == 0 {
        seq![]
    } else {
        let before = listed_dirs(file.drop_last());
        match after_prefix(file.last(), "0::"@) {
            Some(path) => before.push("/sys/fs/cgroup"@ + path),
            None => before,
        }
    }
}

/// The usual places of a container's control group, the likeliest first.
pub open spec fn usual_dirs(id: Seq<char>) -> Seq<Seq<char>> {
    seq![
        "/sys/fs/cgroup/system.slice/docker-"@ + id + ".scope"@,
        "/sys/fs/cgroup/docker/"@ + id,
        "/sys/fs/cgroup/docker-"@ + id + ".scope"@,
        "/sys/fs/cgroup/docker.slice/docker-"@ + id + ".scope"@,
    ]
}

/// The directories to try for a container, in order: those that its process
/// is listed in, if the list could be read, then the usual ones.
pub open spec fn dirs_to_try(file: Option<Seq<char>>, id: Seq<char>) -> Seq<Seq<char>> {
    let listed = match file {
        Some(content) => listed_dirs(lines(content)),
        None => seq![],
    };
    listed + usual_dirs(id)
}

/// The directories to try for a container, in order.
pub fn search_dirs(file: &Option<String>, container_id: &str) -> (dirs: Vec<String>)
    ensures
        texts(dirs@) == dirs_to_try(optional_text(*file), container_id@),
{
    let mut dirs: Vec<String> = Vec::new();
    if let Some(content) = file {
        let all = lines_of(content.as_str());
        let ghost file_lines = lines(content@);
        assert(texts(all@).take(0) =~= seq![]);
        assert(texts(dirs@) =~= seq![]);
        for i in 0..all.len()
            invariant
                file_lines == texts(all@),
                texts(dirs@) == listed_dirs(file_lines.take(i as int)),
        {
            let ghost before = dirs@;
            proof {
                assert(file_lines.take(i + 1).drop_last() =~= file_lines.take(i as int));
                assert(file_lines[i as int] == all@[i as int]@);
            }
            if let Some(path) = strip_prefix_of(all[i].as_str(), "0::") {
                dirs.push(join2("/sys/fs/cgroup", path.as_str()));
                assert(texts(dirs@) =~= texts(before).push("/sys/fs/cgroup"@ + path@));
            }
        }
        assert(file_lines.take(all@.len() as int) =~= file_lines);
    } else {
        assert(texts(dirs@) =~= seq![]);
    }
    let ghost listed = dirs@;
    dirs.push(join3("/sys/fs/cgroup/system.slice/docker-", container_id, ".scope"));
    dirs.push(join2("/sys/fs/cgroup/docker/", container_id));
    dirs.push(join3("/sys/fs/cgroup/docker-", container_id, ".scope"));
    dirs.push(join3("/sys/fs/cgroup/docker.slice/docker-", container_id, ".scope"));
    assert(texts(dirs@) =~= texts(listed) + usual_dirs(container_id@));
    dirs
}

/// Finds the control group of a container: the inode of the first of the
/// directories to try that has one. `read_file` reads a file and `inode_of`
/// tells the inode of a path; either may fail. The process's file is read
/// only for a positive process id.
pub fn resolve_cgroup_id<R, I>(pid: i64, container_id: &str, read_file: R, inode_of: I) -> (found:
    Option<u64>) where R: Fn(&String) -> Option<String>, I: Fn(&String) -> Option<u64>
    requires
        forall|path: &String| #[trigger] read_file.requires((path,)),
        forall|path: &String| #[trigger] inode_of.requires((path,)),
    ensures
        exists|file: Option<String>, dirs: Seq<String>, answers: Seq<Option<u64>>|
            #![trigger listed_in(read_file, pid, file), asked_in_order(inode_of, dirs, answers, found)]
            {
                &&& listed_in(read_file, pid, file)
                &&& texts(dirs) == dirs_to_try(optional_text(file), container_id@)
                &&& asked_in_order(inode_of, dirs, answers, found)
            },
{
    let mut file: Option<String> = None;
    if pid > 0 {
        let mut path = "/proc/".to_owned();
        push_signed_decimal(&mut path, pid);
        path.append("/cgroup");
        file = read_file(&path);
        assert(read_file.ensures((&path,), file));
    }
    assert(listed_in(read_file, pid, file));
    let dirs = search_dirs(&file, container_id);
    let ghost mut answers: Seq<Option<u64>> = seq![];
    let mut i: usize = 0;
    while i < dirs.len()
        invariant
            i <= dirs@.len(),
            answers.len() == i,
            forall|path: &String| #[trigger] inode_of.requires((path,)),
            forall|j: int|
                0 <= j < i ==> (#[trigger] answers[j]) is None && inode_of.ensures(
                    (&dirs@[j],),
                    answers[j],
                ),
            listed_in(read_file, pid, file),
            texts(dirs@) == dirs_to_try(optional_text(file), container_id@),
        decreases dirs@.len() - i,
    {
        let answer = inode_of(&dirs[i]);
        proof {
            answers = answers.push(answer);
        }
        if let Some(inode) = answer {
            assert(asked_in_order(inode_of, dirs@, answers, Some(inode)));
            return Some(inode);
        }
        i += 1;
    }
    assert(asked_in_order(inode_of, dirs@, answers, None));
    None
}

/// Whether `file` is what `read_file` gave of the list of control groups of a
/// process, or nothing when there is no process to ask for.
pub open spec fn listed_in<R>(read_file: R, pid: i64, file: Option<String>) -> bool where
    R: Fn(&String) -> Option<String>,
 {
    if pid > 0 {
        exists|path: String|
            path@ == proc_cgroup_text(pid) && #[trigger] read_file.ensures((&path,), file)
    } else {
        file is None
    }
}

/// Whether `answers` are what `inode_of` said of the first of `dirs`, one for
/// one, and `found` is the outcome: the last answer, when it is an inode and
/// none before it is, or nothing, when all were asked in vain.
pub open spec fn asked_in_order<I>(
    inode_of: I,
    dirs: Seq<String>,
    answers: Seq<Option<u64>>,
    found: Option<u64>,
) -> bool where I: Fn(&String) -> Option<u64> {
    &&& answers.len() <= dirs.len()
    &&& forall|j: int|
        0 <= j < answers.len() ==> inode_of.ensures((&dirs[j],), #[trigger] answers[j])
    &&& forall|j: int| 0 <= j < answers.len() - 1 ==> (#[trigger] answers[j]) is None
    &&& match found {
        Some(inode) => answers.len() > 0 && answers.last() == Some(inode),
        None => answers.len() == dirs.len() && (answers.len() > 0 ==> answers.last() is None),
    }
}

// -------------------------------------------------------------------- laws

/// A container that was taken in is found by its control group; no other
/// control group is affected.
pub proof fn law_cached_container_is_found(manager: ManagerView, info: InfoView, other: u64)
    ensures
        manager.with(info).lookup(info.cgroup_id) == Some(info),
        other != info.cgroup_id ==> manager.with(info).lookup(other) == manager.lookup(other),
{
}

/// A container that went down is gone: it is no longer found by its control
/// group nor by its id, and no other control group is affected.
pub proof fn law_stopped_container_is_gone(manager: ManagerView, info: InfoView, other: u64)
    ensures
        manager.with(info).without(info.id).lookup(info.cgroup_id) is None,
        !manager.with(info).without(info.id).ids.contains_key(info.id),
        other != info.cgroup_id ==> manager.with(info).without(info.id).lookup(other)
            == manager.lookup(other),
{
}

/// Forgetting a container twice, or one that was never known, changes nothing
/// more.
pub proof fn law_forgetting_twice_is_forgetting_once(manager: ManagerView, id: Seq<char>)
    ensures
        manager.without(id).without(id) == manager.without(id),
        !manager.ids.contains_key(id) ==> manager.without(id) == manager,
{
}

/// The listener subscribes to just the actions that it acts on.
pub proof fn law_subscription_is_what_is_acted_on(action: Seq<char>)
    ensures
        subscribed_actions().contains(action) <==> comes_up(action) || goes_down(action),
{
    let all = subscribed_actions();
    assert(all[0] == "start"@ && all[1] == "die"@ && all[2] == "destroy"@ && all[3] == "stop"@
        && all[4] == "kill"@ && all[5] == "unpause"@);
    if all.contains(action) {
        let i = choose|i: int| 0 <= i < all.len() && all[i] == action;
        assert(i == 0 || i == 1 || i == 2 || i == 3 || i == 4 || i == 5);
    }
}

/// No action means both that a container came up and that one went down.
pub proof fn law_up_and_down_differ(action: Seq<char>)
    ensures
        !(comes_up(action) && goes_down(action)),
{
    reveal_strlit("start");
    reveal_strlit("unpause");
    reveal_strlit("die");
    reveal_strlit("destroy");
    reveal_strlit("stop");
    reveal_strlit("kill");
    if comes_up(action) && goes_down(action) {
        assert(action[0] == 's' || action[0] == 'u');
        assert(action.len() == 5 || action.len() == 7);
        assert(action[0] == 'd' || action.len() == 4);
    }
}

} // verus!
