//! The GPIO pins: which register and which bits of it stand for a pin.

use vstd::prelude::*;

verus! {

/// The number of the last GPIO pin.
pub const LAST_PIN: u8 = 53;

/// An alternative GPIO function.
#[derive(Debug, Clone, Copy, PartialEq, Eq, Structural)]
pub enum Function {
    Input,
    Output,
    Alt0,
    Alt1,
    Alt2,
    Alt3,
    Alt4,
    Alt5,
}

/// The three bits that select `function` in a function select register.
pub open spec fn code_of(function: Function) -> u32 {
    match function {
        Function::Input => 0b000,
        Function::Output => 0b001,
        Function::Alt0 => 0b100,
        Function::Alt1 => 0b101,
        Function::Alt2 => 0b110,
        Function::Alt3 => 0b111,
        Function::Alt4 => 0b011,
        Function::Alt5 => 0b010,
    }
}

impl Function {
    /// The three bits that select this function.
    pub fn code(self) -> (code: u32)
        ensures
            code == code_of(self),
            code < 8,
    {
        match self {
            Function::Input => 0b000,
            Function::Output => 0b001,
            Function::Alt0 => 0b100,
            Function::Alt1 => 0b101,
            Function::Alt2 => 0b110,
            Function::Alt3 => 0b111,
            Function::Alt4 => 0b011,
            Function::Alt5 => 0b010,
        }
    }
}

/// A GPIO pin.
#[derive(Debug, Clone, Copy, PartialEq, Eq, Structural)]
pub struct Gpio {
    pin: u8,
}

impl Gpio {
    /// The number of the pin.
    pub closed spec fn pin(&self) -> u8 {
        self.pin
    }

    /// The invariant: the pin is one of the 54 that there are.
    pub open spec fn wf(&self) -> bool {
        self.pin() <= LAST_PIN
    }

    /// Returns a new `Gpio` for the pin number `pin`, or `None` if `pin`
    /// is greater than 53.
    pub fn new(pin: u8) -> (gpio: Option<Gpio>)
        ensures
            match gpio {
                Some(gpio) => pin <= LAST_PIN && gpio.pin() == pin && gpio.wf(),
                None => pin > LAST_PIN,
            },
    {
        if pin > LAST_PIN {
            None
        } else {
            Some(Gpio { pin })
        }
    }

    /// The index of the function select register that holds the function
    /// of the pin: each register holds those of ten pins.
    pub fn select_register(&self) -> (index: usize)
        requires
            self.wf(),
        ensures
            index == self.pin() / 10,
            index < 6,
    {
        (self.pin / 10) as usize
    }

    /// The position of the lowest of the three bits of the pin in its
    /// function select register.
    pub fn select_shift(&self) -> (shift: u32)
        requires
            self.wf(),
        ensures
            shift == 3 * (self.pin() % 10),
            shift <= 27,
    {
        3 * (self.pin % 10) as u32
    }

    /// Whether `selected` is the function select register `value` with
    /// `function` selected for the pin: the three bits of the pin hold the
    /// code of the function, and no other bit has changed.
    pub open spec fn selects(&self, function: Function, value: u32, selected: u32) -> bool {
        let shift = (3 * (self.pin() % 10)) as u32;
        &&& (selected >> shift) & 0b111 == code_of(function)
        &&& selected & !(0b111u32 << shift) == value & !(0b111u32 << shift)
    }

    /// What the function select register of the pin holds once `function`
    /// is selected for the pin, if it held `value` before.
    pub fn into_alt(&self, function: Function, value: u32) -> (selected: u32)
        requires
            self.wf(),
        ensures
            self.selects(function, value, selected),
    {
        let shift = self.select_shift();
        let code = function.code();
        let selected = (value & !(0b111 << shift)) | (code << shift);
        assert((selected >> shift) & 0b111 == code && selected & !(0b111u32 << shift) == value & !(
        0b111u32 << shift)) by (bit_vector)
            requires
                shift <= 27,
                code < 8,
                selected == (value & !(0b111u32 << shift)) | (code << shift),
        ;
        selected
    }

    /// What the function select register of the pin holds once the pin is an
    /// output.
    pub fn into_output(&self, value: u32) -> (selected: u32)
        requires
            self.wf(),
        ensures
            self.selects(Function::Output, value, selected),
    {
        self.into_alt(Function::Output, value)
    }

    /// What the function select register of the pin holds once the pin is an
    /// input.
    pub fn into_input(&self, value: u32) -> (selected: u32)
        requires
            self.wf(),
        ensures
            self.selects(Function::Input, value, selected),
    {
        self.into_alt(Function::Input, value)
    }

    /// The index of the set, clear and level register that holds the bit of
    /// the pin: each register holds those of 32 pins.
    pub fn bank(&self) -> (index: usize)
        requires
            self.wf(),
        ensures
            index == self.pin() / 32,
            index < 2,
    {
        (self.pin / 32) as usize
    }

    /// The bit of the pin in its set, clear and level register. Writing it
    /// to the set register sets the pin, and to the clear register clears it.
    pub fn mask(&self) -> (mask: u32)
        requires
            self.wf(),
        ensures
            mask == 1u32 << (self.pin() % 32) as u32,
            mask != 0,
    {
        let place = (self.pin % 32) as u32;
        assert(1u32 << place != 0) by (bit_vector)
            requires
                place < 32,
        ;
        1u32 << place
    }

    /// Whether the pin is high, where `levels` is what the level register
    /// of the pin holds.
    pub fn level(&self, levels: u32) -> (high: bool)
        requires
            self.wf(),
        ensures
            high == (levels & (1u32 << (self.pin() % 32) as u32) != 0),
    {
        levels & self.mask() != 0
    }
}

} // verus!
