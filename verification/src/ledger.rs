//! A ledger of the bakery's days: the current day, the best day, the
//! workers' sales and the time left.

use vstd::prelude::*;

verus! {

/// Minutes in a working day.
pub const DAY_MINUTES: usize = 600;

#[derive(Clone, Copy)]
pub struct Day {
    pub day_number: usize,
    pub day_sales: usize,
}

#[allow(non_snake_case)]
impl Day {
    /// Day `new_day_number`, with nothing sold yet.
    pub fn new(new_day_number: usize) -> (d: Day)
        ensures
            d.day_number == new_day_number,
            d.day_sales == 0,
    {
        Day { day_number: new_day_number, day_sales: 0 }
    }

    /// Moves on to the next day, with nothing sold yet.
    pub fn updateDay(&mut self)
        requires
            old(self).day_number < usize::MAX,
        ensures
            final(self).day_number == old(self).day_number + 1,
            final(self).day_sales == 0,
    {
        self.day_number = self.day_number + 1;
        self.day_sales = 0;
    }
}

#[derive(Clone)]
pub struct Bakery {
    /// `true` in the morning, when cakes are baked without end; `false` in
    /// the afternoon, when a fixed stock is sold.
    pub phase: bool,
    pub portions_left: usize,
    pub time_left: usize,
    pub current_day: Day,
    pub best_day: Day,
}

#[allow(non_snake_case)]
impl Bakery {
    /// A bakery on the morning of day 0, with unbounded portions and the
    /// whole working day ahead.
    pub fn new() -> (b: Bakery)
        ensures
            b.phase,
            b.portions_left == usize::MAX,
            b.time_left == DAY_MINUTES,
            b.current_day == (Day { day_number: 0, day_sales: 0 }),
            b.best_day == (Day { day_number: 0, day_sales: 0 }),
    {
        Bakery {
            phase: true,
            portions_left: usize::MAX,
            time_left: DAY_MINUTES,
            current_day: Day::new(0),
            best_day: Day::new(0),
        }
    }

    /// Moves the current day on to the next one.
    pub fn changeDay(&mut self)
        requires
            old(self).current_day.day_number < usize::MAX,
        ensures
            final(self).current_day.day_number == old(self).current_day.day_number + 1,
            final(self).current_day.day_sales == 0,
            final(self).best_day == old(self).best_day,
            final(self).phase == old(self).phase,
            final(self).portions_left == old(self).portions_left,
            final(self).time_left == old(self).time_left,
    {
        self.current_day.updateDay();
    }

    /// Makes the current day the best one if it sold strictly more.
    pub fn updateBestDay(&mut self)
        ensures
            old(self).best_day.day_sales < old(self).current_day.day_sales ==> final(self).best_day
                == old(self).current_day,
            old(self).best_day.day_sales >= old(self).current_day.day_sales
                ==> final(self).best_day == old(self).best_day,
            final(self).best_day.day_sales >= final(self).current_day.day_sales,
            final(self).current_day == old(self).current_day,
            final(self).phase == old(self).phase,
            final(self).portions_left == old(self).portions_left,
            final(self).time_left == old(self).time_left,
    {
        if self.best_day.day_sales < self.current_day.day_sales {
            self.best_day = self.current_day.clone();
        }
    }

    /// Takes `minutes_passed` off the time left of a copy of the ledger,
    /// which is then dropped: the caller's ledger is not changed.
    pub fn decTime(self, minutes_passed: usize)
        requires
            minutes_passed <= self.time_left,
    {
        let mut ledger = self;
        ledger.time_left = ledger.time_left - minutes_passed;
    }
}

#[derive(Clone)]
pub struct Worker {
    pub id: usize,
    pub priority: bool,
    pub portions_sold: usize,
}

#[allow(non_snake_case)]
impl Worker {
    /// A worker who has sold nothing yet.
    pub fn new(id: usize, priority_worker: bool) -> (w: Worker)
        ensures
            w.id == id,
            w.priority == priority_worker,
            w.portions_sold == 0,
    {
        Worker { id, priority: priority_worker, portions_sold: 0 }
    }

    /// Counts `portions_sold` more portions as sold.
    pub fn sellPortions(&mut self, portions_sold: usize)
        requires
            old(self).portions_sold + portions_sold <= usize::MAX,
        ensures
            final(self).portions_sold == old(self).portions_sold + portions_sold,
            final(self).id == old(self).id,
            final(self).priority == old(self).priority,
    {
        self.portions_sold = self.portions_sold + portions_sold;
    }

    /// Starts a new day with nothing sold.
    pub fn newDayStats(&mut self)
        ensures
            final(self).portions_sold == 0,
            final(self).id == old(self).id,
            final(self).priority == old(self).priority,
    {
        self.portions_sold = 0;
    }
}

#[derive(Clone, Copy)]
pub struct Client {
    pub id: usize,
    pub priority: bool,
}

impl Client {
    pub fn new(id: usize, priority: bool) -> (c: Client)
        ensures
            c.id == id,
            c.priority == priority,
    {
        Client { id, priority }
    }
}

} // verus!
