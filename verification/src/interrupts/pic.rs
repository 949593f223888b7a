//! The two chained 8259 programmable interrupt controllers. Talking to them is writing
//! bytes to I/O ports; the library computes which bytes go to which ports, in order, and
//! the port writes themselves are done outside it.
use crate::utils::{Port, PortWrite};
use vstd::prelude::*;

verus! {

pub const MASTER_COMMAND_PORT: u16 = 0x20;

pub const MASTER_DATA_PORT: u16 = 0x21;

pub const SLAVE_COMMAND_PORT: u16 = 0xA0;

pub const SLAVE_DATA_PORT: u16 = 0xA1;

/// The end-of-interrupt command.
pub const PIC_EOI: u8 = 0x20;

/// The vector of the master's first line: the first 32 vectors belong to the CPU's
/// exceptions.
pub const MASTER_OFFSET: u8 = 0x20;

/// The vector of the slave's first line, right after the master's eight.
pub const SLAVE_OFFSET: u8 = 0x28;

/// The port whose writes take the time the controllers need between two commands.
pub const IO_WAIT_PORT: u16 = 0x80;

/// The hardware interrupts the kernel handles, by their vector.
#[derive(Debug, Clone, Copy, PartialEq, Eq)]
pub enum Interrupts {
    Timer,
    Keyboard,
}

impl Interrupts {
    pub open spec fn spec_as_u8(self) -> u8 {
        match self {
            Interrupts::Timer => MASTER_OFFSET,
            Interrupts::Keyboard => (MASTER_OFFSET + 1) as u8,
        }
    }

    /// The interrupt's vector: the timer is the master's line 0, the keyboard its line 1.
    pub fn as_u8(self) -> (r: u8)
        ensures
            r == self.spec_as_u8(),
    {
        match self {
            Interrupts::Timer => MASTER_OFFSET,
            Interrupts::Keyboard => MASTER_OFFSET + 1,
        }
    }
}

/// Which of a controller's two ports.
#[derive(Debug, Clone, Copy, PartialEq, Eq)]
pub enum Mode {
    Command,
    Data,
}

/// One 8259 controller: its command port and its data port.
#[derive(Debug, Clone, Copy, PartialEq, Eq)]
pub struct Pic {
    pub command: Port,
    pub data: Port,
}

impl Pic {
    /// The port that `mode` names.
    pub open spec fn port(self, mode: Mode) -> Port {
        match mode {
            Mode::Command => self.command,
            Mode::Data => self.data,
        }
    }

    pub fn new(command: u16, data: u16) -> (r: Self)
        ensures
            r.command.addr == command,
            r.data.addr == data,
    {
        Pic { command: Port::new(command), data: Port::new(data) }
    }

    /// Tells the controller that its interrupt was handled, so that it sends the next.
    pub fn end_of_interrupt(&self) -> (r: PortWrite)
        ensures
            r == (PortWrite { port: self.command, value: PIC_EOI }),
    {
        PortWrite { port: self.command, value: PIC_EOI }
    }

    /// Writes `byte` to the port that `mode` names.
    pub fn writeb(&self, mode: Mode, byte: u8) -> (r: PortWrite)
        ensures
            r == (PortWrite { port: self.port(mode), value: byte }),
    {
        match mode {
            Mode::Data => PortWrite { port: self.data, value: byte },
            Mode::Command => PortWrite { port: self.command, value: byte },
        }
    }

    /// The port to read for `mode`.
    pub fn readb(&self, mode: Mode) -> (r: Port)
        ensures
            r == self.port(mode),
    {
        match mode {
            Mode::Data => self.data,
            Mode::Command => self.command,
        }
    }

    /// Masks all eight lines.
    pub fn disable(&self) -> (r: PortWrite)
        ensures
            r == (PortWrite { port: self.data, value: 0xff }),
    {
        PortWrite { port: self.data, value: 0xff }
    }

    /// Unmasks all eight lines.
    pub fn unmask(&self) -> (r: PortWrite)
        ensures
            r == (PortWrite { port: self.data, value: 0 }),
    {
        PortWrite { port: self.data, value: 0 }
    }
}

/// The master and slave controllers, with the vector offsets they are given.
#[derive(Debug, Clone, Copy, PartialEq, Eq)]
pub struct Pics {
    pub master: Pic,
    pub slave: Pic,
    pub master_offset: u8,
    pub slave_offset: u8,
}

/// The write that gives the controllers time between two commands.
pub open spec fn io_wait() -> PortWrite {
    PortWrite { port: Port { addr: IO_WAIT_PORT }, value: 0 }
}

/// The initialisation sequence: the initialise command to both controllers, then the
/// three data words each expects (vector offset, wiring, 8086 mode), each write followed by
/// a wait; then both controllers unmasked.
pub open spec fn spec_remap(p: Pics) -> Seq<PortWrite> {
    seq![
        PortWrite { port: p.master.command, value: 0x11 },
        io_wait(),
        PortWrite { port: p.slave.command, value: 0x11 },
        io_wait(),
        PortWrite { port: p.master.data, value: p.master_offset },
        io_wait(),
        PortWrite { port: p.slave.data, value: p.slave_offset },
        io_wait(),
        PortWrite { port: p.master.data, value: 0x04 },
        io_wait(),
        PortWrite { port: p.slave.data, value: 0x02 },
        io_wait(),
        PortWrite { port: p.master.data, value: 0x01 },
        io_wait(),
        PortWrite { port: p.slave.data, value: 0x01 },
        io_wait(),
        PortWrite { port: p.master.data, value: 0 },
        PortWrite { port: p.slave.data, value: 0 },
    ]
}

/// The end-of-interrupt writes for vector `irq`: the slave is told too when the interrupt
/// came through it, and it is told first.
pub open spec fn spec_end_of_interrupt(p: Pics, irq: u8) -> Seq<PortWrite> {
    if irq >= p.slave_offset {
        seq![
            PortWrite { port: p.slave.command, value: PIC_EOI },
            PortWrite { port: p.master.command, value: PIC_EOI },
        ]
    } else {
        seq![PortWrite { port: p.master.command, value: PIC_EOI }]
    }
}

impl Pics {
    /// The kernel's controllers: master at ports 0x20 and 0x21, slave at 0xA0 and 0xA1,
    /// with vectors from 0x20 and 0x28.
    pub fn new() -> (r: Self)
        ensures
            r.master.command.addr == MASTER_COMMAND_PORT,
            r.master.data.addr == MASTER_DATA_PORT,
            r.slave.command.addr == SLAVE_COMMAND_PORT,
            r.slave.data.addr == SLAVE_DATA_PORT,
            r.master_offset == MASTER_OFFSET,
            r.slave_offset == SLAVE_OFFSET,
    {
        Pics {
            master: Pic::new(MASTER_COMMAND_PORT, MASTER_DATA_PORT),
            slave: Pic::new(SLAVE_COMMAND_PORT, SLAVE_DATA_PORT),
            master_offset: MASTER_OFFSET,
            slave_offset: SLAVE_OFFSET,
        }
    }

    /// The writes that give the controllers their vector offsets, in order.
    pub fn remap(&self) -> (r: Vec<PortWrite>)
        ensures
            r@ == spec_remap(*self),
    {
        let init_command: u8 = 0x11;
        let mode_8086: u8 = 0x01;
        let wait = PortWrite { port: Port::new(IO_WAIT_PORT), value: 0 };
        let mut writes: Vec<PortWrite> = Vec::new();
        writes.push(self.master.writeb(Mode::Command, init_command));
        writes.push(wait);
        writes.push(self.slave.writeb(Mode::Command, init_command));
        writes.push(wait);
        writes.push(self.master.writeb(Mode::Data, self.master_offset));
        writes.push(wait);
        writes.push(self.slave.writeb(Mode::Data, self.slave_offset));
        writes.push(wait);
        // the slave is wired to the master's line 2
        writes.push(self.master.writeb(Mode::Data, 0b100));
        writes.push(wait);
        writes.push(self.slave.writeb(Mode::Data, 2));
        writes.push(wait);
        writes.push(self.master.writeb(Mode::Data, mode_8086));
        writes.push(wait);
        writes.push(self.slave.writeb(Mode::Data, mode_8086));
        writes.push(wait);
        writes.push(self.master.unmask());
        writes.push(self.slave.unmask());
        assert(writes@ =~= spec_remap(*self));
        writes
    }

    /// The writes that acknowledge interrupt `irq`.
    pub fn end_of_interrupt(&self, irq: u8) -> (r: Vec<PortWrite>)
        ensures
            r@ == spec_end_of_interrupt(*self, irq),
    {
        let mut writes: Vec<PortWrite> = Vec::new();
        if irq >= self.slave_offset {
            writes.push(self.slave.end_of_interrupt());
        }
        writes.push(self.master.end_of_interrupt());
        assert(writes@ =~= spec_end_of_interrupt(*self, irq));
        writes
    }
}

} // verus!
