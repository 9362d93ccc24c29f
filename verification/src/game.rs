//! The game: a board, the viewport on it, and the store of its snapshots.

use vstd::prelude::*;
use crate::board::{flipped, next_generation, points_of, LiveSet};
use crate::store::{Storage, StoreError};
use crate::viewport::Viewport;

verus! {

/// What the user can ask for with a key or a pointer button.
#[derive(Debug, Clone, Copy, PartialEq, Eq, Structural)]
pub enum Command {
    /// One cell to the left.
    Left,
    /// One cell to the right.
    Right,
    /// One cell up.
    Up,
    /// One cell down.
    Down,
    /// Switch between edit and play mode.
    SwitchMode,
    /// Go to the next live cell.
    Search,
    /// The main action: in edit mode flip the cell under the cursor, in play
    /// mode advance by one generation.
    Action,
    /// A pointer button pressed at a terminal position, counted from the
    /// top-left corner of the visible rectangle. The secondary button asks for
    /// the camera to be centred there, the primary one flips the cell there.
    /// In edit mode the cursor goes to that cell with either button.
    Press { column: u16, row: u16, secondary: bool },
    /// Any other input. In play mode it still brings the cursor back to the
    /// origin.
    Other,
}

impl Command {
    /// By how much an arrow moves; `(0, 0)` for every other command.
    pub open spec fn shift(self) -> (int, int) {
        match self {
            Command::Left => (-1, 0),
            Command::Right => (1, 0),
            Command::Up => (0, -1),
            Command::Down => (0, 1),
            _ => (0, 0),
        }
    }
}

/// The cell under a terminal position: a cell is two columns wide.
pub open spec fn cell_at(v: Viewport, column: u16, row: u16) -> (int, int) {
    (column / 2 + v.start_x, row + v.start_y)
}

/// The viewport after `cmd`, but for the search queue, which only a
/// generation step changes. In play mode the cursor follows the origin after
/// every command but the mode switch.
pub open spec fn view_after(v: Viewport, cmd: Command) -> Viewport {
    let moved = match cmd {
        Command::SwitchMode => Viewport { edit_mode: !v.edit_mode, ..v },
        Command::Search => Viewport { do_search: true, ..v },
        Command::Action | Command::Other => v,
        Command::Press { column, row, secondary } => if v.edit_mode {
            Viewport {
                edit_x: cell_at(v, column, row).0 as i32,
                edit_y: cell_at(v, column, row).1 as i32,
                do_center: v.do_center || secondary,
                ..v
            }
        } else {
            Viewport { do_center: v.do_center || secondary, ..v }
        },
        _ => if v.edit_mode {
            Viewport {
                edit_x: (v.edit_x + cmd.shift().0) as i32,
                edit_y: (v.edit_y + cmd.shift().1) as i32,
                ..v
            }
        } else {
            Viewport {
                start_x: (v.start_x + cmd.shift().0) as i32,
                start_y: (v.start_y + cmd.shift().1) as i32,
                ..v
            }
        },
    };
    if v.edit_mode || cmd == Command::SwitchMode {
        moved
    } else {
        Viewport { edit_x: moved.start_x, edit_y: moved.start_y, ..moved }
    }
}

/// The board after `cmd`.
pub open spec fn field_after(s: Set<(int, int)>, v: Viewport, cmd: Command) -> Set<(int, int)> {
    match cmd {
        Command::Action => if v.edit_mode {
            flipped(s, v.cursor())
        } else {
            next_generation(s)
        },
        Command::Press { column, row, secondary } => if secondary {
            s
        } else {
            flipped(s, cell_at(v, column, row))
        },
        _ => s,
    }
}

/// The whole state of a session.
pub struct Gamedata {
    /// Where snapshots are kept.
    pub storage: Storage,
    /// The live cells.
    pub field: LiveSet,
    /// Camera, cursor, mode and search state.
    pub view: Viewport,
}

impl Gamedata {
    /// Board and viewport are well formed.
    pub open spec fn wf(&self) -> bool {
        self.field.wf() && self.view.wf()
    }

    /// A new game on the store in the file `lf.db` of the working directory.
    /// Fails with `StorageIO` where the store cannot be opened.
    pub fn new() -> (r: Result<Gamedata, StoreError>)
        ensures
            match r {
                Ok(g) => g.wf() && g.field@ == Set::<(int, int)>::empty() && g.view.is_fresh(),
                Err(e) => e == StoreError::StorageIO,
            },
    {
        match Storage::new("lf.db") {
            Ok(storage) => Ok(Gamedata::with_storage(storage)),
            Err(_) => Err(StoreError::StorageIO),
        }
    }

    /// A new game on an open store: an empty board, origin and cursor at
    /// `(0, 0)`, edit mode.
    pub fn with_storage(storage: Storage) -> (g: Gamedata)
        ensures
            g.wf(),
            g.storage == storage,
            g.field@ == Set::<(int, int)>::empty(),
            g.view.is_fresh(),
    {
        Gamedata { storage, field: LiveSet::new(), view: Viewport::new() }
    }

    /// Flips the cell at `(x, y)` and leaves viewport and store alone.
    pub fn toggle_cell(&mut self, x: i32, y: i32)
        requires
            old(self).wf(),
        ensures
            final(self).wf(),
            final(self).field@ == flipped(old(self).field@, (x as int, y as int)),
            final(self).view == old(self).view,
            final(self).storage == old(self).storage,
    {
        self.field.toggle(x, y);
    }

    /// Advances the board by one generation and forgets the search queue.
    pub fn update(&mut self)
        requires
            old(self).wf(),
        ensures
            final(self).wf(),
            final(self).field@ == next_generation(old(self).field@),
            final(self).view.queue() == Seq::<(i32, i32)>::empty(),
            final(self).view.start_x == old(self).view.start_x,
            final(self).view.start_y == old(self).view.start_y,
            final(self).view.edit_x == old(self).view.edit_x,
            final(self).view.edit_y == old(self).view.edit_y,
            final(self).view.edit_mode == old(self).view.edit_mode,
            final(self).view.do_center == old(self).view.do_center,
            final(self).view.do_search == old(self).view.do_search,
            final(self).storage == old(self).storage,
    {
        self.view.reset_search();
        self.field.step();
    }

    /// Carries out one command. An arrow moves the cursor in edit mode and
    /// the camera in play mode; the main action flips the cell under the
    /// cursor in edit mode and steps the board in play mode, which also
    /// empties the search queue.
    pub fn handle(&mut self, cmd: Command)
        requires
            old(self).wf(),
            old(self).view.edit_mode ==> {
                &&& i32::MIN <= old(self).view.edit_x + cmd.shift().0 <= i32::MAX
                &&& i32::MIN <= old(self).view.edit_y + cmd.shift().1 <= i32::MAX
            },
            !old(self).view.edit_mode ==> {
                &&& i32::MIN <= old(self).view.start_x + cmd.shift().0 <= i32::MAX
                &&& i32::MIN <= old(self).view.start_y + cmd.shift().1 <= i32::MAX
            },
            cmd matches Command::Press { column, row, .. } ==> {
                &&& cell_at(old(self).view, column, row).0 <= i32::MAX
                &&& cell_at(old(self).view, column, row).1 <= i32::MAX
            },
        ensures
            final(self).wf(),
            final(self).storage == old(self).storage,
            final(self).field@ == field_after(old(self).field@, old(self).view, cmd),
            final(self).view.start_x == view_after(old(self).view, cmd).start_x,
            final(self).view.start_y == view_after(old(self).view, cmd).start_y,
            final(self).view.edit_x == view_after(old(self).view, cmd).edit_x,
            final(self).view.edit_y == view_after(old(self).view, cmd).edit_y,
            final(self).view.edit_mode == view_after(old(self).view, cmd).edit_mode,
            final(self).view.do_center == view_after(old(self).view, cmd).do_center,
            final(self).view.do_search == view_after(old(self).view, cmd).do_search,
            final(self).view.queue() == if cmd == Command::Action && !old(self).view.edit_mode {
                Seq::<(i32, i32)>::empty()
            } else {
                old(self).view.queue()
            },
    {
        let play = !self.view.edit_mode;
        match cmd {
            Command::Left => self.view.move_cursor(-1, 0),
            Command::Right => self.view.move_cursor(1, 0),
            Command::Up => self.view.move_cursor(0, -1),
            Command::Down => self.view.move_cursor(0, 1),
            Command::SwitchMode => {
                self.view.toggle_mode();
                return ;
            },
            Command::Search => self.view.request_search(),
            Command::Other => {},
            Command::Action => {
                if play {
                    self.update();
                } else {
                    let x = self.view.edit_x;
                    let y = self.view.edit_y;
                    self.toggle_cell(x, y);
                }
            },
            Command::Press { column, row, secondary } => {
                let x: i32 = (column / 2) as i32 + self.view.start_x;
                let y: i32 = row as i32 + self.view.start_y;
                if secondary {
                    self.view.request_center(x, y);
                } else {
                    if !play {
                        self.view.edit_x = x;
                        self.view.edit_y = y;
                    }
                    self.toggle_cell(x, y);
                }
            },
        }
        if play {
            self.view.edit_x = self.view.start_x;
            self.view.edit_y = self.view.start_y;
        }
    }

    /// Replaces the board wholesale by the cells that `cells` names.
    pub fn replace_field(&mut self, cells: &Vec<(i32, i32)>)
        ensures
            final(self).field.wf(),
            final(self).field@ == points_of(cells@),
            final(self).view == old(self).view,
            final(self).storage == old(self).storage,
    {
        self.field = LiveSet::from_cells(cells);
    }

    /// Hands the board to `Storage::save` under `name` and hands on what
    /// came back: on success the id that the store gave the record. Board and
    /// viewport stay as they are, whatever the outcome.
    pub fn save(&mut self, name: &str) -> (r: Result<i64, StoreError>)
        requires
            old(self).wf(),
        ensures
            final(self).field == old(self).field,
            final(self).view == old(self).view,
            r matches Err(e) ==> e == StoreError::UniqueViolation || e == StoreError::StorageIO,
    {
        self.storage.save(name, &self.field)
    }

    /// All snapshots as `(id, name)`, in the store's row order.
    pub fn records(&self) -> (r: Result<Vec<(i64, String)>, StoreError>)
        ensures
            r matches Err(e) ==> e == StoreError::StorageIO,
    {
        self.storage.get_records()
    }

    /// Loads the snapshot `name` in place of the board. On failure the board
    /// stays as it is.
    pub fn load(&mut self, name: &str) -> (r: Result<(), StoreError>)
        requires
            old(self).wf(),
        ensures
            final(self).wf(),
            final(self).view == old(self).view,
            r is Err ==> final(self).field == old(self).field,
            r matches Err(e) ==> e == StoreError::NotFound || e == StoreError::StorageIO,
    {
        let outcome = self.storage.load(name);
        self.take_loaded(outcome)
    }

    /// Takes in what a load gave: cells replace the board wholesale, a
    /// failure is handed on and leaves the board as it is.
    pub fn take_loaded(&mut self, outcome: Result<Vec<(i32, i32)>, StoreError>) -> (r: Result<
        (),
        StoreError,
    >)
        ensures
            final(self).view == old(self).view,
            final(self).storage == old(self).storage,
            match outcome {
                Ok(cells) => {
                    &&& r == Ok::<(), StoreError>(())
                    &&& final(self).field.wf()
                    &&& final(self).field@ == points_of(cells@)
                },
                Err(e) => r == Err::<(), StoreError>(e) && final(self).field == old(self).field,
            },
    {
        match outcome {
            Ok(cells) => {
                self.replace_field(&cells);
                Ok(())
            },
            Err(e) => Err(e),
        }
    }

    /// Deletes the snapshot `name`. Board and viewport stay as they are.
    pub fn delete(&mut self, name: &str) -> (r: Result<(), StoreError>)
        ensures
            final(self).field == old(self).field,
            final(self).view == old(self).view,
            r matches Err(e) ==> e == StoreError::NotFound || e == StoreError::StorageIO,
    {
        self.storage.delete(name)
    }
}

} // verus!
