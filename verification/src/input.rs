//! What widgets can be asked to do in answer to input.

use vstd::prelude::*;

verus! {

/// How an operation ended: `Ok` if the widget did what was asked, `Err` if
/// it could not.
pub type OperationResult = Result<(), ()>;

/// Something in which a cursor or a selection can be moved about.
pub trait Navigatable {
    fn move_up(&mut self) -> OperationResult;

    fn move_down(&mut self) -> OperationResult;

    fn move_left(&mut self) -> OperationResult;

    fn move_right(&mut self) -> OperationResult;
}

/// Something that takes characters.
pub trait Writable {
    fn write(&mut self, c: char) -> OperationResult;
}

/// Something whose text can be edited.
pub trait Editable: Writable {
    fn delete_forwards(&mut self) -> OperationResult;

    fn delete_backwards(&mut self) -> OperationResult;

    fn go_to_beginning_of_line(&mut self) -> OperationResult;

    fn go_to_end_of_line(&mut self) -> OperationResult;

    fn clear(&mut self) -> OperationResult;
}

} // verus!
