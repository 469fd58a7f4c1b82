//! The project menu.

use vstd::prelude::*;

verus! {

/// Number of the main menu.
pub const ID_MENU_MAIN: usize = 0;

/// Number of the menu of the saved projects.
pub const ID_MENU_PROJECT: usize = 1;

/// What choosing a menu item does.
pub enum Action {
    OpenMenu(usize),
    LoadProject(String),
    SaveProject,
}

impl Clone for Action {
    fn clone(&self) -> (action: Action)
        ensures
            action == *self,
    {
        match self {
            Action::OpenMenu(id) => Action::OpenMenu(*id),
            Action::LoadProject(path) => Action::LoadProject(path.clone()),
            Action::SaveProject => Action::SaveProject,
        }
    }
}

/// One line of a menu.
pub struct MenuItem {
    pub name: String,
    pub value: String,
    pub action: Action,
}

/// A list of items, one of which is current.
pub struct Menu {
    pub items: Vec<MenuItem>,
    pub current: usize,
    pub is_opened: bool,
}

/// A file found where projects are saved.
#[derive(Clone, Debug)]
pub struct ProjectFile {
    /// Its name without the directory.
    pub file_name: String,
    /// Its full path.
    pub path: String,
    /// What follows the last dot of its name, if it has one.
    pub extension: Option<String>,
}

/// Whether a file is a project: its extension is `daz`.
pub open spec fn is_project(file: ProjectFile) -> bool {
    file.extension matches Some(e) && e@ == "daz"@
}

/// The menu item that loads a project file.
pub open spec fn is_item_of(item: MenuItem, file: ProjectFile) -> bool {
    &&& item.name@ == file.file_name@
    &&& item.value@ == file.path@
    &&& item.action matches Action::LoadProject(path) && path@ == file.path@
}

/// The indices of the project files among the first `k` files, in order.
pub open spec fn project_indices(files: Seq<ProjectFile>, k: int) -> Seq<int>
    decreases k,
{
    if k <= 0 {
        Seq::empty()
    } else if is_project(files[k - 1]) {
        project_indices(files, k - 1).push(k - 1)
    } else {
        project_indices(files, k - 1)
    }
}

/// The indices found are those of the project files, each once and in
/// rising order.
pub proof fn lemma_project_indices(files: Seq<ProjectFile>, k: int)
    requires
        0 <= k <= files.len(),
    ensures
        forall|i: int|
            0 <= i < project_indices(files, k).len() ==> {
                &&& 0 <= #[trigger] project_indices(files, k)[i] < k
                &&& is_project(files[project_indices(files, k)[i]])
            },
        forall|i: int, j: int|
            0 <= i < j < project_indices(files, k).len() ==> project_indices(files, k)[i]
                < project_indices(files, k)[j],
        forall|f: int|
            0 <= f < k && is_project(files[f]) ==> #[trigger] project_indices(files, k).contains(f),
    decreases k,
{
    if k > 0 {
        let before = project_indices(files, k - 1);
        let found = project_indices(files, k);
        lemma_project_indices(files, k - 1);
        assert forall|i: int| 0 <= i < found.len() implies 0 <= #[trigger] found[i] < k
            && is_project(files[found[i]]) by {
            if i < before.len() {
                assert(found[i] == before[i]);
            }
        }
        assert forall|i: int, j: int| 0 <= i < j < found.len() implies found[i] < found[j] by {
            assert(found[i] == before[i]);
            if j < before.len() {
                assert(found[j] == before[j]);
            }
        }
        assert forall|f: int| 0 <= f < k && is_project(files[f]) implies #[trigger] found.contains(
            f,
        ) by {
            if f < k - 1 {
                assert(before.contains(f));
                let i = choose|i: int| 0 <= i < before.len() && before[i] == f;
                assert(found[i] == f);
            } else {
                assert(found[found.len() - 1] == f);
            }
        }
    }
}

impl Menu {
    /// The main menu: open a project, or save.
    pub fn main() -> (menu: Menu)
        ensures
            menu.current == 0,
            !menu.is_opened,
            menu.items@.len() == 2,
            menu.items@[0].name@ == "Open Project"@,
            menu.items@[0].value@ == ">"@,
            menu.items@[0].action == Action::OpenMenu(ID_MENU_PROJECT),
            menu.items@[1].name@ == "Save"@,
            menu.items@[1].value@ == ">"@,
            menu.items@[1].action == Action::SaveProject,
    {
        let mut items: Vec<MenuItem> = Vec::new();
        items.push(
            MenuItem {
                name: "Open Project".to_owned(),
                value: ">".to_owned(),
                action: Action::OpenMenu(ID_MENU_PROJECT),
            },
        );
        items.push(
            MenuItem { name: "Save".to_owned(), value: ">".to_owned(), action: Action::SaveProject },
        );
        Menu { current: 0, is_opened: false, items }
    }

    /// The menu of the saved projects: one item for each of the files that
    /// is a project, in the order of the files.
    pub fn projects(files: Vec<ProjectFile>) -> (menu: Menu)
        ensures
            menu.current == 0,
            !menu.is_opened,
            menu.items@.len() == project_indices(files@, files@.len() as int).len(),
            forall|i: int|
                0 <= i < menu.items@.len() ==> is_item_of(
                    #[trigger] menu.items@[i],
                    files@[project_indices(files@, files@.len() as int)[i]],
                ),
    {
        let daz = "daz".to_owned();
        let mut items: Vec<MenuItem> = Vec::new();
        let ghost mut found: Seq<int> = Seq::empty();
        let n = files.len();
        let mut k: usize = 0;
        while k < n
            invariant
                k <= n,
                n == files@.len(),
                daz@ == "daz"@,
                found == project_indices(files@, k as int),
                items@.len() == found.len(),
                forall|i: int| 0 <= i < found.len() ==> 0 <= #[trigger] found[i] < k,
                forall|i: int|
                    0 <= i < items@.len() ==> is_item_of(#[trigger] items@[i], files@[found[i]]),
            decreases n - k,
        {
            let file = &files[k];
            let keep = match &file.extension {
                Some(e) => *e == daz,
                None => false,
            };
            if keep {
                items.push(
                    MenuItem {
                        name: file.file_name.clone(),
                        value: file.path.clone(),
                        action: Action::LoadProject(file.path.clone()),
                    },
                );
                proof {
                    found = found.push(k as int);
                }
            }
            k += 1;
        }
        Menu { current: 0, is_opened: false, items }
    }

    /// Moves to the item before, and from the first to the last.
    pub fn up(&mut self)
        requires
            old(self).items@.len() > 0,
        ensures
            final(self).items == old(self).items,
            final(self).is_opened == old(self).is_opened,
            final(self).current == if old(self).current > 0 {
                old(self).current - 1
            } else {
                old(self).items@.len() - 1
            },
    {
        if self.current > 0 {
            self.current -= 1;
        } else {
            self.current = self.items.len() - 1;
        }
    }

    /// Moves to the item after, and from the last to the first.
    pub fn down(&mut self)
        requires
            old(self).items@.len() > 0,
        ensures
            final(self).items == old(self).items,
            final(self).is_opened == old(self).is_opened,
            final(self).current == if old(self).current + 1 > old(self).items@.len() - 1 {
                0
            } else {
                old(self).current + 1
            },
    {
        if self.current >= self.items.len() - 1 {
            self.current = 0;
        } else {
            self.current += 1;
        }
    }

    /// What the current item does.
    pub fn enter(&mut self) -> (action: Action)
        requires
            old(self).current < old(self).items@.len(),
        ensures
            *final(self) == *old(self),
            action == old(self).items@[old(self).current as int].action,
    {
        self.items[self.current].action.clone()
    }
}

} // verus!
