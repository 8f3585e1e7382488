pub mod addr;
pub mod bind_table;
pub mod build_config;
pub mod builtin;
pub mod bytes;
pub mod cargo_args;
pub mod child_state;
pub mod console;
pub mod devcons;
pub mod display;
pub mod elf;
pub mod findings;
pub mod fixpoint;
pub mod fix;
pub mod frontmatter;
pub mod harness;
pub mod heap;
pub mod ipc;
pub mod irq;
pub mod mailbox;
pub mod nameserver;
pub mod once;
pub mod print;
pub mod process;
pub mod refs;
pub mod report;
pub mod riscv_qemu;
pub mod sorted;
pub mod steps;
pub mod taskfile;
pub mod tasks;
pub mod text;
pub mod time;
pub mod toolchain;
pub mod tree;
pub mod x86_qemu;
