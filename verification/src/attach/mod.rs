//! The client side of an attached session.
use vstd::prelude::*;

pub mod autowrap;
pub mod cell;
pub mod csi;
pub mod input;
pub mod list;
pub mod raw;
pub mod region;
pub mod screens;
pub mod scrollback;
pub mod session;

verus! {

/// What a key binding asks the session to do.
#[derive(Clone, Copy, Debug, PartialEq, Eq, Structural)]
pub enum InputAction {
    Detach,
    Destroy,
    Create,
    ForceResize,
    ForceRefresh,
    SwitchNext,
    SwitchPrevious,
    SwitchRecent,
    SwitchIndex(u8),
    ShowList,
    ShowInfo,
    ShowScrollback,
    ShowHelp,
}

/// How the client paints the PTY's output.
#[derive(Clone, Copy, Debug, PartialEq, Eq, Structural)]
pub enum RenderMode {
    /// Cell by cell, from a copy of the server's screen.
    Cell,
    /// The bytes as they come.
    Raw,
    /// The bytes as they come, within a scroll region of the server's size.
    Region,
    /// The bytes as they come, with every line wrap written out.
    Autowrap,
}

/// What a render handler is told about the PTY.
pub enum PtyEvent<'a> {
    Stream { data: &'a [u8] },
    Refresh { cols: u32, rows: u32, data: &'a [u8] },
    Resize { cols: u32, rows: u32 },
    Closed,
}

/// What a render handler asks for in turn.
#[derive(Clone, Copy, Debug, PartialEq, Eq, Structural)]
pub enum EventResult {
    Continue,
    ChangeRenderMode(RenderMode),
    RequestRefresh,
}

/// The size of `a` fits into that of `b`.
pub open spec fn fits(a_cols: u32, a_rows: u32, b_cols: u32, b_rows: u32) -> bool {
    b_cols >= a_cols && b_rows >= a_rows
}

/// The data of chunks that were buffered while a refresh was under way, in order.
pub open spec fn chunk_data(chunks: Seq<(u64, Vec<u8>)>) -> Seq<u8>
    decreases chunks.len(),
{
    if chunks.len() == 0 {
        Seq::empty()
    } else {
        chunk_data(chunks.drop_last()) + chunks.last().1@
    }
}

/// True when a client terminal is at least as large as the server's, in both directions.
pub fn server_fits_client(server_cols: u32, server_rows: u32, client_cols: u32, client_rows: u32) -> (yes: bool)
    ensures
        yes == fits(server_cols, server_rows, client_cols, client_rows),
{
    client_cols >= server_cols && client_rows >= server_rows
}

/// Law: a screen fits another where it has neither more columns nor more rows.
pub proof fn law_fits(cols: u32, rows: u32, client_cols: u32, client_rows: u32, yes: bool)
    requires
        call_ensures(server_fits_client, (cols, rows, client_cols, client_rows), yes),
    ensures
        yes == (cols <= client_cols && rows <= client_rows),
        fits(cols, rows, client_cols, client_rows) == (cols <= client_cols && rows <= client_rows),
{
}

/// Law: chunks give their data one behind the other, in their order.
pub proof fn law_chunks_in_order(before: Seq<(u64, Vec<u8>)>, chunk: (u64, Vec<u8>))
    ensures
        chunk_data(Seq::empty()).len() == 0,
        chunk_data(before.push(chunk)) == chunk_data(before) + chunk.1@,
{
    assert(before.push(chunk).drop_last() =~= before);
}

} // verus!
