use vstd::prelude::*;

verus! {

/// An order as a client submits it.
#[derive(Debug)]
pub struct OrderRequest {
    pub exchange: String,
    pub symbol: String,
    /// "MARKET" or "LIMIT".
    pub order_type: String,
    /// "BUY" or "SELL".
    pub bid_or_ask: String,
    pub quantity: u64,
    pub price_paisa: Option<u64>,
    pub stop_loss_paisa: Option<u64>,
    pub take_profit_paisa: Option<u64>,
}

/// Whether the market simulator and the arbitrage engine run, with a session
/// number for each that every switch changes, so that an automatic time-out
/// armed in an earlier session does nothing.
#[derive(Debug, Clone, Copy, PartialEq, Eq, Structural)]
pub struct EngineSwitches {
    pub sim_active: bool,
    pub hft_active: bool,
    pub sim_session: u64,
    pub hft_session: u64,
}

/// The arbitrage engine runs only while the simulator runs.
pub open spec fn switches_ok(s: EngineSwitches) -> bool {
    s.hft_active ==> s.sim_active
}

/// The session after `n`, wrapping from the largest `u64` to 0.
pub open spec fn next_session(n: u64) -> u64 {
    if n == u64::MAX {
        0
    } else {
        (n + 1) as u64
    }
}

/// The message for an attempt to start the arbitrage engine with the simulator off.
pub open spec fn hft_needs_sim() -> Seq<char> {
    "Cannot enable HFT while simulator is off"@
}

/// The seconds after which a session switched on is switched off again.
pub const AUTO_OFF_SECONDS: u64 = 600;

fn following_session(n: u64) -> (r: u64)
    ensures
        r == next_session(n),
{
    if n == u64::MAX {
        0
    } else {
        n + 1
    }
}

impl EngineSwitches {
    /// Both off, in session 0.
    pub fn new() -> (s: Self)
        ensures
            !s.sim_active,
            !s.hft_active,
            s.sim_session == 0,
            s.hft_session == 0,
    {
        EngineSwitches { sim_active: false, hft_active: false, sim_session: 0, hft_session: 0 }
    }

    /// Switches the simulator on or off, starting a new simulator session.
    /// Switching it off stops the arbitrage engine too and starts a new session
    /// of it. Switching it on gives the session whose time-out is to be armed.
    pub fn toggle_sim(self) -> (r: (Self, Option<u64>))
        ensures
            r.0.sim_active == !self.sim_active,
            r.0.sim_session == next_session(self.sim_session),
            r.0.sim_active ==> r.0.hft_active == self.hft_active && r.0.hft_session == self.hft_session
                && r.1 == Some(r.0.sim_session),
            !r.0.sim_active ==> !r.0.hft_active && r.0.hft_session == next_session(self.hft_session) && r.1 is None,
    {
        let sim_active = !self.sim_active;
        let sim_session = following_session(self.sim_session);
        if sim_active {
            (EngineSwitches { sim_active, hft_active: self.hft_active, sim_session, hft_session: self.hft_session }, Some(sim_session))
        } else {
            let hft_session = following_session(self.hft_session);
            (EngineSwitches { sim_active, hft_active: false, sim_session, hft_session }, None)
        }
    }

    /// Switches the arbitrage engine on or off, starting a new session of it;
    /// starting it while the simulator is off is refused and changes nothing.
    /// Switching it on gives the session whose time-out is to be armed.
    pub fn toggle_hft(self) -> (r: Result<(Self, Option<u64>), String>)
        ensures
            !self.sim_active && !self.hft_active ==> (r matches Err(e) && e@ == hft_needs_sim()),
            self.sim_active || self.hft_active ==> (r matches Ok((s, armed)) && s.sim_active == self.sim_active
                && s.sim_session == self.sim_session && s.hft_active == !self.hft_active
                && s.hft_session == next_session(self.hft_session)
                && armed == (if s.hft_active { Some(s.hft_session) } else { None::<u64> })),
    {
        if !self.sim_active && !self.hft_active {
            return Err(String::from_str("Cannot enable HFT while simulator is off"));
        }
        let hft_active = !self.hft_active;
        let hft_session = following_session(self.hft_session);
        let s = EngineSwitches { sim_active: self.sim_active, hft_active, sim_session: self.sim_session, hft_session };
        Ok((s, if hft_active { Some(hft_session) } else { None }))
    }

    /// The simulator's time-out armed in `session` has run out: when that
    /// session is still the current one and the simulator runs, both stop.
    pub fn sim_timed_out(self, session: u64) -> (s: Self)
        ensures
            self.sim_session == session && self.sim_active ==> s == (EngineSwitches {
                sim_active: false,
                hft_active: false,
                ..self
            }),
            !(self.sim_session == session && self.sim_active) ==> s == self,
    {
        if self.sim_session == session && self.sim_active {
            EngineSwitches { sim_active: false, hft_active: false, ..self }
        } else {
            self
        }
    }

    /// The arbitrage engine's time-out armed in `session` has run out: when that
    /// session is still the current one and the engine runs, it stops.
    pub fn hft_timed_out(self, session: u64) -> (s: Self)
        ensures
            self.hft_session == session && self.hft_active ==> s == (EngineSwitches { hft_active: false, ..self }),
            !(self.hft_session == session && self.hft_active) ==> s == self,
    {
        if self.hft_session == session && self.hft_active {
            EngineSwitches { hft_active: false, ..self }
        } else {
            self
        }
    }

    /// Stops both, as a full reset does; the sessions stay.
    pub fn stop_all(self) -> (s: Self)
        ensures
            s == (EngineSwitches { sim_active: false, hft_active: false, ..self }),
    {
        EngineSwitches { sim_active: false, hft_active: false, ..self }
    }
}

/// Whatever the switches, time-outs and resets do, the arbitrage engine never
/// runs while the simulator is off.
pub proof fn lemma_switches_stay_ok(s: EngineSwitches, session: u64)
    requires
        switches_ok(s),
    ensures
        switches_ok(EngineSwitches {
            sim_active: !s.sim_active,
            hft_active: !s.sim_active && s.hft_active,
            sim_session: next_session(s.sim_session),
            hft_session: if !s.sim_active { s.hft_session } else { next_session(s.hft_session) },
        }),
        s.sim_active || s.hft_active ==> switches_ok(EngineSwitches { hft_active: !s.hft_active, ..s }),
        switches_ok(if s.sim_session == session && s.sim_active { EngineSwitches { sim_active: false, hft_active: false, ..s } } else { s }),
        switches_ok(if s.hft_session == session && s.hft_active { EngineSwitches { hft_active: false, ..s } } else { s }),
        switches_ok(EngineSwitches { sim_active: false, hft_active: false, ..s }),
{
}

/// A time-out armed in a session that has since been switched once or twice
/// more (off, or off and on again) does nothing.
pub proof fn lemma_stale_timeout_ignored(s: EngineSwitches, session: u64)
    requires
        s.sim_session == next_session(session) || s.sim_session == next_session(next_session(session)),
    ensures
        (if s.sim_session == session && s.sim_active { EngineSwitches { sim_active: false, hft_active: false, ..s } } else { s }) == s,
{
}


/// The most orders accepted from one client per rate-limit window of one second.
pub open spec fn max_orders_per_window() -> u64 {
    20
}

/// The key under which the orders of client `client` are counted.
pub open spec fn rate_key_text(client: Seq<char>) -> Seq<char> {
    "rate_limit:api_orders:"@ + client
}

/// The key under which the orders of client `client` (its address) are counted,
/// so that each client has a limit of its own.
pub fn rate_limit_key(client: &str) -> (k: String)
    ensures
        k@ == rate_key_text(client@),
{
    let mut k = String::from_str("rate_limit:api_orders:");
    k.append(client);
    proof {
        reveal_strlit("rate_limit:api_orders:");
    }
    k
}

/// What the order endpoint does with the count of a client's orders in the
/// current window, this one included.
#[derive(Debug, Clone, Copy, PartialEq, Eq, Structural)]
pub struct RateCheck {
    /// The count was just started: its window of one second is to be set.
    pub start_window: bool,
    /// Too many orders in this window: the order is refused.
    pub rejected: bool,
}

/// The rate check for the `count`-th order of a client in a window: the first
/// order starts the window, and any order past the twentieth is refused.
pub fn order_rate_check(count: u64) -> (r: RateCheck)
    ensures
        r.start_window == (count == 1),
        r.rejected == (count > max_orders_per_window()),
{
    RateCheck { start_window: count == 1, rejected: count > 20 }
}

} // verus!
