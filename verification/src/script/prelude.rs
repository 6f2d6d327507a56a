//! What every engine starts with: the tables of modules and instances, `require`, and the classes
//! through which scripts see the functions of the bridge.

use vstd::prelude::*;

verus! {

/// A module is run when it is first required, and kept from then on. It is kept before it is run,
/// so modules that require each other see what is there so far; one that throws is not kept.
///
/// Writing to `self.position.y` writes to the node: the vectors of a node are views, not copies.
/// What changes numbers by more than storing them (`translate`, `rotateY`, `lookAt`, `getForward`),
/// what asks the solver (`raycast`), what makes something (`spawn`, `burstParticles`) and `log` are
/// members that whoever runs the engine adds to `__k`.
pub const PRELUDE: &'static str =
    "globalThis.__moduleSources = Object.create(null);
globalThis.__moduleCache = Object.create(null);
globalThis.__instances = Object.create(null);
globalThis.require = (name) => {
    const kept = __moduleCache[name];
    if (kept !== undefined) return kept.exports;
    const source = __moduleSources[name];
    if (typeof source !== 'string') throw new Error('no module named ' + name);
    const module = { exports: {} };
    __moduleCache[name] = module;
    try {
        new Function('module', 'exports', source)(module, module.exports);
    } catch (error) {
        delete __moduleCache[name];
        throw error;
    }
    return module.exports;
};
globalThis.engine = { require: globalThis.require };

globalThis.Vector3 = class Vector3 {
    constructor(x = 0, y = 0, z = 0) { this.x = x; this.y = y; this.z = z; }
    static ZERO() { return new Vector3(0, 0, 0); }
    static ONE() { return new Vector3(1, 1, 1); }
    static UP() { return new Vector3(0, 1, 0); }
    static DOWN() { return new Vector3(0, -1, 0); }
    static LEFT() { return new Vector3(-1, 0, 0); }
    static RIGHT() { return new Vector3(1, 0, 0); }
    static FORWARD() { return new Vector3(0, 0, -1); }
    static BACK() { return new Vector3(0, 0, 1); }
    add(o) { return new Vector3(this.x + o.x, this.y + o.y, this.z + o.z); }
    sub(o) { return new Vector3(this.x - o.x, this.y - o.y, this.z - o.z); }
    mul(s) { return new Vector3(this.x * s, this.y * s, this.z * s); }
    dot(o) { return this.x * o.x + this.y * o.y + this.z * o.z; }
    cross(o) {
        return new Vector3(
            this.y * o.z - this.z * o.y,
            this.z * o.x - this.x * o.z,
            this.x * o.y - this.y * o.x,
        );
    }
    length() { return Math.sqrt(this.dot(this)); }
    distanceTo(o) { return this.sub(o).length(); }
    normalized() {
        const length = this.length();
        return length > 0 ? this.mul(1 / length) : new Vector3(0, 0, 0);
    }
    lerp(o, t) { return this.add(o.sub(this).mul(t)); }
};

globalThis.__View = class View extends Vector3 {
    constructor(id, field) {
        super();
        const axis = (n) => ({
            get: () => __k.getComponent(id, field, n),
            set: (value) => __k.setComponent(id, field, n, value),
        });
        Object.defineProperties(this, { x: axis(0), y: axis(1), z: axis(2) });
    }
};

globalThis.Node = class Node {
    constructor(id) { this.id = id; }
    get valid() { return __k.isValid(this.id); }
    get name() { return __k.getName(this.id); }
    get position() { return new __View(this.id, 0); }
    set position(v) { __k.setVec(this.id, 0, v.x, v.y, v.z); }
    get scale() { return new __View(this.id, 1); }
    set scale(v) { __k.setVec(this.id, 1, v.x, v.y, v.z); }
    get globalPosition() { return new Vector3(...__k.getGlobalPosition(this.id)); }
    get forward() { return new Vector3(...__k.getForward(this.id)); }
    get visible() { return __k.getVisible(this.id); }
    set visible(flag) { __k.setVisible(this.id, flag); }
    get linearVelocity() { return new Vector3(...__k.getLinvel(this.id)); }
    set linearVelocity(v) { __k.setLinvel(this.id, v.x, v.y, v.z); }
    translate(v) { __k.translate(this.id, v.x, v.y, v.z); }
    rotateY(angle) { __k.rotateY(this.id, angle); }
    lookAt(v) { __k.lookAt(this.id, v.x, v.y, v.z); }
    applyImpulse(v) { __k.applyImpulse(this.id, v.x, v.y, v.z); }
    playSound() { __k.playSound(this.id); }
    stopSound() { __k.stopSound(this.id); }
    set volume(gain) { __k.setSoundGain(this.id, gain); }
    set pitch(pitch) { __k.setSoundPitch(this.id, pitch); }
    set soundLooping(flag) { __k.setSoundLooping(this.id, flag); }
    playAnimation(name) { return __k.playAnimation(this.id, name); }
    startAnimation() { __k.setAnimationPlaying(this.id, true); }
    stopAnimation() { __k.setAnimationPlaying(this.id, false); }
    set animationSpeed(speed) { __k.setAnimationSpeed(this.id, speed); }
    get animationPlaying() { return __k.isAnimationPlaying(this.id); }
    startParticles() { __k.setParticlesPlaying(this.id, true); }
    stopParticles() { __k.setParticlesPlaying(this.id, false); }
    set emissionRate(rate) { __k.setEmissionRate(this.id, rate); }
    burst(count) { __k.burstParticles(this.id, count); }
    get particleCount() { return __k.particleCount(this.id); }
    get script() {
        const instance = __instances[this.id];
        return instance === undefined ? null : instance;
    }
    queueFree() { __k.queueFree(this.id); }
};

globalThis.__node = (id) => (id < 0 ? null : new Node(id));
Object.defineProperty(globalThis, 'self', { get: () => new Node(__k.selfId()) });
globalThis.getNode = (name) => __node(__k.find(name));
globalThis.spawn = (name, at) => __node(__k.spawn(name, at.x, at.y, at.z));
globalThis.raycast = (from, to, far) => {
    const hit = __k.raycast(from.x, from.y, from.z, to.x, to.y, to.z, far);
    return hit === null ? null : {
        node: __node(hit.node),
        position: new Vector3(hit.px, hit.py, hit.pz),
        normal: new Vector3(hit.nx, hit.ny, hit.nz),
        distance: hit.distance,
    };
};
globalThis.emit = (name, value = 0) => __k.emit(name, value);
globalThis.print = (...parts) => __k.log(parts.join(''));
globalThis.Time = {
    get elapsed() { return __k.time(); },
    get delta() { return __k.delta(); },
};
globalThis.Input = {
    pressed: (name) => __k.actionPressed(name),
    justPressed: (name) => __k.actionJustPressed(name),
    justReleased: (name) => __k.actionJustReleased(name),
    axis: (name) => __k.axis(name),
    mousePressed: (name) => __k.mousePressed(name),
    mouseJustPressed: (name) => __k.mouseJustPressed(name),
    get mousePosition() { return __k.mousePosition(); },
    get mouseDelta() { return __k.mouseDelta(); },
    get scrollDelta() { return __k.scrollDelta(); },
};
";

/// Forgets all instances.
pub const NO_INSTANCES: &'static str = "globalThis.__instances = Object.create(null);";

} // verus!
