//! Flow-control windows (RFC 7540, section 6.9): signed credit that DATA
//! uses up and WINDOW_UPDATE restores.

use crate::error::ErrorCode;
use vstd::prelude::*;

verus! {

/// The largest window: 2^31 - 1.
pub const MAX_WINDOW: u32 = 0x7fff_ffff;

/// The window of a new connection, and of a new stream until SETTINGS says
/// otherwise.
pub const DEFAULT_WINDOW: u32 = 65535;

/// One window, for one direction of one stream or of the connection.
///
/// Its credit is the initial size that SETTINGS gave, plus all increments
/// granted, minus all bytes used. It never exceeds `MAX_WINDOW`; it is
/// negative after the initial size was lowered below what had been used.
#[derive(Clone, Copy, Debug, PartialEq, Eq, Structural)]
pub struct FlowWindow {
    initial: u32,
    balance: i64,
}

/// A window as a mathematical value.
pub struct WindowView {
    /// The initial size in force.
    pub initial: nat,
    /// Increments granted minus bytes used, since the window was made.
    pub balance: int,
}

impl WindowView {
    /// The credit at hand.
    pub open spec fn credit(self) -> int {
        self.initial + self.balance
    }

    pub open spec fn wf(self) -> bool {
        &&& self.initial <= MAX_WINDOW
        &&& -(MAX_WINDOW as int) <= self.balance
        &&& self.credit() <= MAX_WINDOW
    }

    /// The window after `n` bytes were used, where the credit covers them.
    pub open spec fn take(self, n: nat) -> Option<WindowView> {
        if n <= self.credit() {
            Some(WindowView { balance: self.balance - n, ..self })
        } else {
            None
        }
    }

    /// The window after an increment: zero is a protocol error, a credit
    /// above the maximum a flow-control error.
    pub open spec fn grant(self, increment: nat) -> Result<WindowView, ErrorCode> {
        if increment == 0 {
            Err(ErrorCode::ProtocolError)
        } else if self.credit() + increment > MAX_WINDOW {
            Err(ErrorCode::FlowControlError)
        } else {
            Ok(WindowView { balance: self.balance + increment, ..self })
        }
    }

    /// The window after the initial size changed: the credit moves by the
    /// difference. It may become negative; above the maximum it is a
    /// flow-control error.
    pub open spec fn resize(self, initial: nat) -> Result<WindowView, ErrorCode> {
        if initial > MAX_WINDOW || initial + self.balance > MAX_WINDOW {
            Err(ErrorCode::FlowControlError)
        } else {
            Ok(WindowView { initial, ..self })
        }
    }
}

impl View for FlowWindow {
    type V = WindowView;

    closed spec fn view(&self) -> WindowView {
        WindowView { initial: self.initial as nat, balance: self.balance as int }
    }
}

impl FlowWindow {
    /// A window of the given initial size; a size above the maximum is a
    /// flow-control error.
    pub fn new(initial: u32) -> (r: Result<FlowWindow, ErrorCode>)
        ensures
            r.is_ok() == (initial <= MAX_WINDOW),
            r.is_ok() ==> r.unwrap()@ == (WindowView { initial: initial as nat, balance: 0 })
                && r.unwrap()@.wf(),
            r.is_err() ==> r.unwrap_err() == ErrorCode::FlowControlError,
    {
        if initial <= MAX_WINDOW {
            Ok(FlowWindow { initial, balance: 0 })
        } else {
            Err(ErrorCode::FlowControlError)
        }
    }

    /// A window of the default size.
    pub fn default_window() -> (r: FlowWindow)
        ensures
            r@ == (WindowView { initial: DEFAULT_WINDOW as nat, balance: 0 }),
            r@.wf(),
    {
        FlowWindow { initial: DEFAULT_WINDOW, balance: 0 }
    }

    /// The credit at hand.
    pub fn credit(&self) -> (r: i64)
        requires
            self@.wf(),
        ensures
            r == self@.credit(),
            r <= MAX_WINDOW,
    {
        self.initial as i64 + self.balance
    }

    /// The initial size in force.
    pub fn initial(&self) -> (r: u32)
        ensures
            r == self@.initial,
    {
        self.initial
    }

    /// Whether the credit covers `n` bytes.
    pub fn covers(&self, n: u32) -> (r: bool)
        requires
            self@.wf(),
        ensures
            r == self@.take(n as nat).is_some(),
    {
        n as i64 <= self.credit()
    }

    /// Uses up `n` bytes of credit. Where the credit does not cover them
    /// the window stays as it is and `false` is returned.
    pub fn take(&mut self, n: u32) -> (r: bool)
        requires
            old(self)@.wf(),
        ensures
            final(self)@.wf(),
            r == old(self)@.take(n as nat).is_some(),
            r ==> final(self)@ == old(self)@.take(n as nat).unwrap(),
            !r ==> *final(self) == *old(self),
    {
        if n as i64 <= self.credit() {
            self.balance = self.balance - n as i64;
            true
        } else {
            false
        }
    }

    /// Applies the increment of a WINDOW_UPDATE. On an error the window
    /// stays as it is.
    pub fn grant(&mut self, increment: u32) -> (r: Result<(), ErrorCode>)
        requires
            old(self)@.wf(),
        ensures
            final(self)@.wf(),
            match old(self)@.grant(increment as nat) {
                Ok(w) => r.is_ok() && final(self)@ == w,
                Err(e) => r == Err::<(), ErrorCode>(e) && *final(self) == *old(self),
            },
    {
        if increment == 0 {
            Err(ErrorCode::ProtocolError)
        } else if self.credit() + increment as i64 > MAX_WINDOW as i64 {
            Err(ErrorCode::FlowControlError)
        } else {
            self.balance = self.balance + increment as i64;
            Ok(())
        }
    }

    /// Applies a new initial size from SETTINGS. On an error the window
    /// stays as it is.
    pub fn resize(&mut self, initial: u32) -> (r: Result<(), ErrorCode>)
        requires
            old(self)@.wf(),
        ensures
            final(self)@.wf(),
            match old(self)@.resize(initial as nat) {
                Ok(w) => r.is_ok() && final(self)@ == w,
                Err(e) => r == Err::<(), ErrorCode>(e) && *final(self) == *old(self),
            },
    {
        if initial > MAX_WINDOW || initial as i64 + self.balance > MAX_WINDOW as i64 {
            Err(ErrorCode::FlowControlError)
        } else {
            self.initial = initial;
            Ok(())
        }
    }
}

/// One step in the life of a window.
pub enum WindowOp {
    /// Bytes of DATA, sent or received.
    Take(nat),
    /// The increment of a WINDOW_UPDATE.
    Grant(nat),
    /// A new initial size from SETTINGS.
    Resize(nat),
}

/// The window after one step; a step that is refused leaves it as it is.
pub open spec fn apply_op(w: WindowView, op: WindowOp) -> WindowView {
    match op {
        WindowOp::Take(n) => match w.take(n) {
            Some(v) => v,
            None => w,
        },
        WindowOp::Grant(n) => match w.grant(n) {
            Ok(v) => v,
            Err(_) => w,
        },
        WindowOp::Resize(n) => match w.resize(n) {
            Ok(v) => v,
            Err(_) => w,
        },
    }
}

/// The window after a series of steps.
pub open spec fn apply_ops(w: WindowView, ops: Seq<WindowOp>) -> WindowView
    decreases ops.len(),
{
    if ops.len() == 0 {
        w
    } else {
        apply_op(apply_ops(w, ops.drop_last()), ops.last())
    }
}

/// Whatever is done to a window, in whatever order, its credit never
/// exceeds the maximum.
pub proof fn lemma_window_bounded(w: WindowView, ops: Seq<WindowOp>)
    requires
        w.wf(),
    ensures
        apply_ops(w, ops).wf(),
        apply_ops(w, ops).credit() <= MAX_WINDOW,
    decreases ops.len(),
{
    if ops.len() > 0 {
        lemma_window_bounded(w, ops.drop_last());
    }
}

/// Bytes are never taken beyond the credit: where `take` succeeds, the
/// bytes were covered, and the credit sinks by exactly their number.
pub proof fn lemma_take_within_credit(w: WindowView, n: nat)
    requires
        w.wf(),
    ensures
        w.take(n).is_some() <==> n <= w.credit(),
        w.take(n).is_some() ==> w.take(n).unwrap().credit() == w.credit() - n && w.take(
            n,
        ).unwrap().credit() >= 0,
{
}

} // verus!
