use vstd::prelude::*;

use crate::chance::roll_below;

verus! {

/// Weather states.
#[derive(Debug, Clone, Copy, PartialEq, Eq, Structural)]
pub enum WeatherState {
    Clear,
    Rain,
    Drought,
    Storm,
}

pub open spec fn weather_for(roll: int) -> WeatherState {
    if roll == 0 {
        WeatherState::Clear
    } else if roll == 1 {
        WeatherState::Rain
    } else if roll == 2 {
        WeatherState::Drought
    } else {
        WeatherState::Storm
    }
}

/// The current weather and how many ticks it still lasts.
pub struct WeatherSubsystem {
    current_weather: WeatherState,
    duration_remaining: u32,
}

impl WeatherSubsystem {
    pub closed spec fn weather(&self) -> WeatherState {
        self.current_weather
    }

    pub closed spec fn remaining(&self) -> u32 {
        self.duration_remaining
    }

    /// Clear weather for thirty ticks.
    pub fn new() -> (w: WeatherSubsystem)
        ensures
            w.weather() == WeatherState::Clear,
            w.remaining() == 30,
    {
        WeatherSubsystem { current_weather: WeatherState::Clear, duration_remaining: 30 }
    }

    pub fn current_weather(&self) -> (w: WeatherState)
        ensures
            w == self.weather(),
    {
        self.current_weather
    }

    /// One tick of weather given the two draws it may need: when the current weather
    /// runs out, `weather_roll` picks the next one and `duration_roll` adds to the
    /// ten ticks it lasts at least. Returns whether a drought has just begun.
    pub fn advance(&mut self, weather_roll: u32, duration_roll: u32) -> (drought: bool)
        requires
            weather_roll < 4,
            duration_roll < 50,
        ensures
            old(self).remaining() <= 1 ==> final(self).weather() == weather_for(weather_roll as int)
                && final(self).remaining() == 10 + duration_roll && drought == (weather_roll == 2),
            old(self).remaining() > 1 ==> final(self).weather() == old(self).weather()
                && final(self).remaining() == old(self).remaining() - 1 && !drought,
    {
        self.duration_remaining = self.duration_remaining.saturating_sub(1);
        if self.duration_remaining == 0 {
            self.current_weather = match weather_roll {
                0 => WeatherState::Clear,
                1 => WeatherState::Rain,
                2 => WeatherState::Drought,
                _ => WeatherState::Storm,
            };
            self.duration_remaining = 10 + duration_roll;
            weather_roll == 2
        } else {
            false
        }
    }

    /// One tick of weather, drawing the next weather and its length at random when
    /// the current one runs out. Returns whether a drought has just begun.
    pub fn tick(&mut self) -> (drought: bool)
        ensures
            old(self).remaining() <= 1 ==> 10 <= final(self).remaining() < 60 && drought == (
            final(self).weather() == WeatherState::Drought),
            old(self).remaining() > 1 ==> final(self).weather() == old(self).weather()
                && final(self).remaining() == old(self).remaining() - 1 && !drought,
    {
        if self.duration_remaining <= 1 {
            let w = roll_below(4);
            let d = roll_below(50);
            self.advance(w, d)
        } else {
            self.advance(0, 0)
        }
    }
}

} // verus!
